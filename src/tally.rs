//! Letter frequencies over the candidate words that survive a turn's filter.
use crate::collections::{set_letters, tally_counts, LetterSet, LetterTally};
use crate::letters::{fits, is_masked_word, is_upper, survives};
use vstd::prelude::*;

verus! {

broadcast use vstd::string::group_string_axioms;

/// The words of a dictionary, as character sequences.
pub open spec fn words_of(ws: Seq<String>) -> Seq<Seq<char>> {
    ws.map_values(|s: String| s@)
}

/// Every word of the dictionary is ASCII.
pub open spec fn all_ascii(ws: Seq<Seq<char>>) -> bool {
    forall|i: int| 0 <= i < ws.len() ==> vstd::utf8::is_ascii_chars(#[trigger] ws[i])
}

/// The number of characters of all the words together.
pub open spec fn total_letters(ws: Seq<Seq<char>>) -> nat
    decreases ws.len(),
{
    if ws.len() == 0 {
        0
    } else {
        total_letters(ws.drop_last()) + ws.last().len()
    }
}

/// The characters of two dictionaries add up.
pub proof fn lemma_total_concat(x: Seq<Seq<char>>, y: Seq<Seq<char>>)
    ensures
        total_letters(x + y) == total_letters(x) + total_letters(y),
    decreases y.len(),
{
    if y.len() == 0 {
        assert(x + y =~= x);
    } else {
        lemma_total_concat(x, y.drop_last());
        assert((x + y).drop_last() =~= x + y.drop_last());
    }
}

/// Reordering a dictionary keeps its number of characters.
pub proof fn lemma_total_permutation(a: Seq<Seq<char>>, b: Seq<Seq<char>>)
    requires
        a.to_multiset() == b.to_multiset(),
    ensures
        total_letters(a) == total_letters(b),
    decreases a.len(),
{
    broadcast use vstd::seq_lib::group_to_multiset_ensures;

    if a.len() == 0 {
        assert(b.len() == b.to_multiset().len());
        assert(b =~= Seq::<Seq<char>>::empty());
        assert(total_letters(b) == 0);
    } else {
        let x = a.last();
        let rest = a.drop_last();
        assert(rest.push(x) =~= a);
        assert(a.to_multiset().count(x) > 0);
        assert(b.contains(x));
        let k = choose|k: int| 0 <= k < b.len() && b[k] == x;
        let b2 = b.remove(k);
        assert(b2.to_multiset() =~= rest.to_multiset());
        lemma_total_permutation(rest, b2);
        let front = b.subrange(0, k);
        let back = b.subrange(k + 1, b.len() as int);
        assert(b =~= front + seq![x] + back);
        assert(b2 =~= front + back);
        lemma_total_concat(front + seq![x], back);
        lemma_total_concat(front, seq![x]);
        lemma_total_concat(front, back);
        assert(seq![x].drop_last() =~= Seq::<Seq<char>>::empty());
        assert(total_letters(Seq::<Seq<char>>::empty()) == 0);
        assert(total_letters(seq![x]) == x.len());
        assert(total_letters(a) == total_letters(rest) + x.len());
        assert(total_letters(b) == total_letters(front) + x.len() + total_letters(back));
    }
}

/// How many times the letter `c` occurs in `w`.
pub open spec fn occurrences(w: Seq<char>, c: u8) -> nat
    decreases w.len(),
{
    if w.len() == 0 {
        0
    } else {
        occurrences(w.drop_last(), c) + if w.last() as u8 == c {
            1nat
        } else {
            0nat
        }
    }
}

/// How many times the letter `c` occurs over the words of `ws` that survive
/// the filter of masked word `m` and absent letters `d`.
pub open spec fn frequency(ws: Seq<Seq<char>>, m: Seq<char>, d: Set<u8>, c: u8) -> nat
    decreases ws.len(),
{
    if ws.len() == 0 {
        0
    } else {
        frequency(ws.drop_last(), m, d, c) + if survives(m, d, ws.last()) {
            occurrences(ws.last(), c)
        } else {
            0nat
        }
    }
}

/// A letter occurs at most once per character.
pub proof fn lemma_occurrences_le_len(w: Seq<char>, c: u8)
    ensures
        occurrences(w, c) <= w.len(),
    decreases w.len(),
{
    if w.len() > 0 {
        lemma_occurrences_le_len(w.drop_last(), c);
    }
}

/// A frequency never exceeds the number of characters of the dictionary.
pub proof fn lemma_frequency_le_total(ws: Seq<Seq<char>>, m: Seq<char>, d: Set<u8>, c: u8)
    ensures
        frequency(ws, m, d, c) <= total_letters(ws),
    decreases ws.len(),
{
    if ws.len() > 0 {
        lemma_frequency_le_total(ws.drop_last(), m, d, c);
        lemma_occurrences_le_len(ws.last(), c);
    }
}

/// A prefix of a dictionary has no more characters than the whole.
pub proof fn lemma_total_prefix(ws: Seq<Seq<char>>, i: int)
    requires
        0 <= i <= ws.len(),
    ensures
        total_letters(ws.subrange(0, i)) <= total_letters(ws),
    decreases ws.len() - i,
{
    if i < ws.len() {
        lemma_total_prefix(ws, i + 1);
        assert(ws.subrange(0, i + 1).drop_last() =~= ws.subrange(0, i));
    } else {
        assert(ws.subrange(0, i) =~= ws);
    }
}

/// `entries` lists each uppercase letter that occurs in the words of `ws`
/// that survive the filter of `m` and `d`, once, with its frequency.
pub open spec fn is_frequency_list(
    entries: Seq<(u8, usize)>,
    ws: Seq<Seq<char>>,
    m: Seq<char>,
    d: Set<u8>,
) -> bool {
    &&& forall|k: int|
        0 <= k < entries.len() ==> is_upper(#[trigger] entries[k].0) && frequency(
            ws,
            m,
            d,
            entries[k].0,
        ) > 0 && entries[k].1 == frequency(ws, m, d, entries[k].0)
    &&& forall|c: u8|
        #![trigger frequency(ws, m, d, c)]
        is_upper(c) && frequency(ws, m, d, c) > 0 ==> exists|k: int|
            0 <= k < entries.len() && #[trigger] entries[k].0 == c
    &&& forall|i: int, j: int| 0 <= i < j < entries.len() ==> entries[i].0 < entries[j].0
}

/// The frequency of each uppercase letter over the dictionary words that
/// survive the filter of `mask` and `disallowed`, in alphabetical order.
pub fn letter_frequencies(dictionary: &[String], mask: &str, disallowed: &LetterSet) -> (r: Vec<
    (u8, usize),
>)
    requires
        is_masked_word(mask@),
        all_ascii(words_of(dictionary@)),
        total_letters(words_of(dictionary@)) <= usize::MAX,
    ensures
        is_frequency_list(r@, words_of(dictionary@), mask@, set_letters(*disallowed)),
{
    let tally = tally_letters(dictionary, mask, disallowed);
    let ghost counts = tally_counts(tally);
    let ghost ws = words_of(dictionary@);
    let ghost d = set_letters(*disallowed);
    let mut entries: Vec<(u8, usize)> = Vec::new();
    let mut c: u8 = 65;
    while c <= 90
        invariant
            65 <= c <= 91,
            counts == tally_counts(tally),
            forall|x: u8|
                #[trigger] counts.contains_key(x) <==> (is_upper(x) && frequency(ws, mask@, d, x) > 0),
            forall|x: u8| #[trigger] counts.contains_key(x) ==> counts[x] == frequency(ws, mask@, d, x),
            forall|k: int|
                0 <= k < entries@.len() ==> is_upper(#[trigger] entries@[k].0) && entries@[k].0 < c
                    && frequency(ws, mask@, d, entries@[k].0) > 0 && entries@[k].1 == frequency(
                    ws,
                    mask@,
                    d,
                    entries@[k].0,
                ),
            forall|x: u8|
                #![trigger frequency(ws, mask@, d, x)]
                is_upper(x) && x < c && frequency(ws, mask@, d, x) > 0 ==> exists|k: int|
                    0 <= k < entries@.len() && #[trigger] entries@[k].0 == x,
            forall|i: int, j: int| 0 <= i < j < entries@.len() ==> entries@[i].0 < entries@[j].0,
        decreases 91 - c,
    {
        let ghost before = entries@;
        match tally.get(c) {
            Some(n) => {
                entries.push((c, n));
                proof {
                    assert(entries@[entries@.len() - 1].0 == c);
                }
            },
            None => {},
        }
        proof {
            assert forall|x: u8|
                is_upper(x) && x < c + 1 && #[trigger] frequency(ws, mask@, d, x) > 0 implies exists|
                k: int,
            | 0 <= k < entries@.len() && #[trigger] entries@[k].0 == x by {
                if x < c {
                    let k = choose|k: int| 0 <= k < before.len() && #[trigger] before[k].0 == x;
                    assert(entries@[k] == before[k]);
                } else {
                    assert(counts.contains_key(x));
                    assert(entries@[entries@.len() - 1].0 == x);
                }
            }
        }
        c += 1;
    }
    entries
}

/// Counts each uppercase letter over the dictionary words that survive the
/// filter of `mask` and `disallowed`: the tally holds exactly the letters that
/// occur there, each with its number of occurrences.
fn tally_letters(dictionary: &[String], mask: &str, disallowed: &LetterSet) -> (r: LetterTally)
    requires
        is_masked_word(mask@),
        all_ascii(words_of(dictionary@)),
        total_letters(words_of(dictionary@)) <= usize::MAX,
    ensures
        forall|c: u8|
            #[trigger] tally_counts(r).contains_key(c) <==> (is_upper(c) && frequency(
                words_of(dictionary@),
                mask@,
                set_letters(*disallowed),
                c,
            ) > 0),
        forall|c: u8|
            #[trigger] tally_counts(r).contains_key(c) ==> tally_counts(r)[c] == frequency(
                words_of(dictionary@),
                mask@,
                set_letters(*disallowed),
                c,
            ),
{
    let ghost ws = words_of(dictionary@);
    let ghost d = set_letters(*disallowed);
    let mut tally = LetterTally::new();
    let mut i: usize = 0;
    while i < dictionary.len()
        invariant
            i <= dictionary@.len(),
            ws == words_of(dictionary@),
            d == set_letters(*disallowed),
            is_masked_word(mask@),
            all_ascii(ws),
            total_letters(ws) <= usize::MAX,
            forall|c: u8|
                #[trigger] tally_counts(tally).contains_key(c) <==> (is_upper(c) && frequency(
                    ws.subrange(0, i as int),
                    mask@,
                    d,
                    c,
                ) > 0),
            forall|c: u8|
                #[trigger] tally_counts(tally).contains_key(c) ==> tally_counts(tally)[c]
                    == frequency(ws.subrange(0, i as int), mask@, d, c),
        decreases dictionary@.len() - i,
    {
        let word = dictionary[i].as_str();
        let ghost pre = ws.subrange(0, i as int);
        let ghost next = ws.subrange(0, i as int + 1);
        proof {
            assert(next.drop_last() =~= pre);
            assert(next.last() == word@);
            assert(ws[i as int] == word@);
            lemma_total_prefix(ws, i as int + 1);
            vstd::utf8::is_ascii_chars_encode_utf8(word@);
        }
        if fits(mask, word, disallowed) {
            let bytes = word.as_bytes();
            let mut j: usize = 0;
            while j < bytes.len()
                invariant
                    j <= bytes@.len(),
                    bytes@.len() == word@.len(),
                    forall|k: int| 0 <= k < word@.len() ==> #[trigger] bytes@[k] == word@[k] as u8,
                    next.len() > 0,
                    next.drop_last() == pre,
                    next.last() == word@,
                    survives(mask@, d, word@),
                    total_letters(next) <= usize::MAX,
                    forall|c: u8|
                        #[trigger] tally_counts(tally).contains_key(c) <==> (is_upper(c) && frequency(
                            pre,
                            mask@,
                            d,
                            c,
                        ) + occurrences(word@.subrange(0, j as int), c) > 0),
                    forall|c: u8|
                        #[trigger] tally_counts(tally).contains_key(c) ==> tally_counts(tally)[c]
                            == frequency(pre, mask@, d, c) + occurrences(
                            word@.subrange(0, j as int),
                            c,
                        ),
                decreases bytes@.len() - j,
            {
                let u = bytes[j];
                let ghost w0 = word@.subrange(0, j as int);
                let ghost w1 = word@.subrange(0, j as int + 1);
                proof {
                    assert(w1.drop_last() =~= w0);
                    assert(w1.last() as u8 == u);
                }
                if 65 <= u && u <= 90 {
                    let n: usize = match tally.get(u) {
                        Some(n) => n,
                        None => 0,
                    };
                    proof {
                        lemma_occurrences_le_len(w1, u);
                        lemma_frequency_le_total(pre, mask@, d, u);
                        assert(total_letters(next) == total_letters(pre) + word@.len());
                    }
                    tally.insert(u, n + 1);
                }
                j += 1;
            }
            proof {
                assert(word@.subrange(0, j as int) =~= word@);
            }
        }
        i += 1;
    }
    proof {
        assert(ws.subrange(0, i as int) =~= ws);
    }
    tally
}

} // verus!
