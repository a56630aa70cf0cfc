//! Letters, masked words and the shape rule that a candidate word must meet.
use vstd::prelude::*;

verus! {

broadcast use vstd::string::group_string_axioms;

/// The byte of an uppercase ASCII letter.
pub open spec fn is_upper(c: u8) -> bool {
    65 <= c <= 90
}

/// A masked word: each position holds an uppercase letter or the wildcard `*`.
pub open spec fn is_masked_word(m: Seq<char>) -> bool {
    forall|i: int| 0 <= i < m.len() ==> ('A' <= #[trigger] m[i] <= 'Z' || m[i] == '*')
}

/// `w` has the shape of the masked word `m`: the same length, and the revealed
/// letter at each revealed position.
pub open spec fn fits_shape(m: Seq<char>, w: Seq<char>) -> bool {
    &&& m.len() == w.len()
    &&& forall|i: int| 0 <= i < m.len() ==> (#[trigger] m[i] == '*' || m[i] == w[i])
}

/// The letter `c` occurs somewhere in `w`.
pub open spec fn has_letter(w: Seq<char>, c: u8) -> bool {
    exists|i: int| 0 <= i < w.len() && #[trigger] w[i] as u8 == c
}

/// No character of `w` is in the set `d`.
pub open spec fn avoids(w: Seq<char>, d: Set<u8>) -> bool {
    forall|i: int| 0 <= i < w.len() ==> !d.contains(#[trigger] w[i] as u8)
}

/// A candidate survives the filter of a turn: it has the shape of the masked
/// word and holds none of the letters known to be absent.
pub open spec fn survives(m: Seq<char>, d: Set<u8>, w: Seq<char>) -> bool {
    fits_shape(m, w) && avoids(w, d)
}

/// The ASCII uppercase form of a character; other characters stay.
pub open spec fn upper_char(c: char) -> char {
    if 'a' <= c <= 'z' {
        ((c as u8) - 32) as u8 as char
    } else {
        c
    }
}

/// The ASCII uppercase form of a word.
pub open spec fn upper_word(w: Seq<char>) -> Seq<char> {
    w.map_values(|c: char| upper_char(c))
}

/// Relies on `str::to_ascii_uppercase`: each ASCII lowercase letter becomes
/// its uppercase form, every other character stays.
#[verifier::external_body]
pub(crate) fn to_upper(s: &str) -> (r: String)
    ensures
        r@ == upper_word(s@),
{
    s.to_ascii_uppercase()
}

/// Decides `survives(mask@, disallowed, word@)` for an ASCII word.
pub fn fits(mask: &str, word: &str, disallowed: &crate::collections::LetterSet) -> (r: bool)
    requires
        is_masked_word(mask@),
        vstd::utf8::is_ascii_chars(word@),
    ensures
        r == survives(mask@, crate::collections::set_letters(*disallowed), word@),
{
    let m = mask.as_bytes();
    let w = word.as_bytes();
    proof {
        lemma_masked_word_is_ascii(mask@);
        vstd::utf8::is_ascii_chars_encode_utf8(mask@);
        vstd::utf8::is_ascii_chars_encode_utf8(word@);
        vstd::utf8::is_ascii_chars_nat_bound(mask@);
        vstd::utf8::is_ascii_chars_nat_bound(word@);
    }
    if m.len() != w.len() {
        return false;
    }
    let ghost d = crate::collections::set_letters(*disallowed);
    let mut i: usize = 0;
    while i < w.len()
        invariant
            m@.len() == mask@.len(),
            w@.len() == word@.len(),
            m@.len() == w@.len(),
            d == crate::collections::set_letters(*disallowed),
            forall|j: int| 0 <= j < mask@.len() ==> #[trigger] m@[j] == mask@[j] as u8,
            forall|j: int| 0 <= j < word@.len() ==> #[trigger] w@[j] == word@[j] as u8,
            forall|j: int| 0 <= j < mask@.len() ==> (#[trigger] mask@[j] as nat) < 128,
            forall|j: int| 0 <= j < word@.len() ==> (#[trigger] word@[j] as nat) < 128,
            forall|j: int| 0 <= j < i ==> (#[trigger] mask@[j] == '*' || mask@[j] == word@[j]),
            forall|j: int| 0 <= j < i ==> !d.contains(#[trigger] word@[j] as u8),
        decreases w.len() - i,
    {
        let a = m[i];
        let b = w[i];
        proof {
            lemma_ascii_bytes_eq(mask@[i as int], word@[i as int]);
            lemma_ascii_bytes_eq(mask@[i as int], '*');
        }
        if a != 42 && a != b {
            assert(mask@[i as int] != '*' && mask@[i as int] != word@[i as int]);
            return false;
        }
        if disallowed.contains(b) {
            assert(!avoids(word@, d));
            return false;
        }
        i += 1;
    }
    assert(fits_shape(mask@, word@));
    assert(avoids(word@, d));
    true
}

/// Two ASCII characters are equal when their bytes are.
proof fn lemma_ascii_bytes_eq(a: char, b: char)
    requires
        (a as nat) < 128,
        (b as nat) < 128,
    ensures
        (a as u8 == b as u8) == (a == b),
{
}

/// Every character of a masked word is ASCII.
pub proof fn lemma_masked_word_is_ascii(m: Seq<char>)
    requires
        is_masked_word(m),
    ensures
        vstd::utf8::is_ascii_chars(m),
{
}

} // verus!
