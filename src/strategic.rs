//! The strategic guesser: it filters its dictionary by the revealed pattern and
//! by the letters known to be absent, then proposes a most frequent letter that
//! it has not proposed before.
use crate::chance::pick_one;
use crate::collections::{set_letters, LetterSet};
use crate::letters::{has_letter, is_masked_word, is_upper, to_upper, upper_word};
use crate::rank::{entries_from, first_most_frequent, first_rank_by_key, has_count};
use crate::solver::Solver;
use crate::tally::{
    all_ascii, frequency, is_frequency_list, letter_frequencies, total_letters, words_of,
};
use squirrel_rng::SquirrelRng;
use vstd::prelude::*;

verus! {

broadcast use vstd::string::group_string_axioms;

/// The seed of a guesser's generator when none is given.
pub const DEFAULT_SEED: u32 = 3408509824;

/// What a guesser remembers of its game.
pub struct History {
    /// Letters proposed and already reconciled.
    pub submitted: Set<u8>,
    /// The letter proposed last, not yet reconciled.
    pub pending: Option<u8>,
    /// Letters known to be absent from the secret word.
    pub disallowed: Set<u8>,
    /// Every letter proposed so far, in order.
    pub proposed: Seq<u8>,
}

/// The history of a fresh guesser.
pub open spec fn empty_history() -> History {
    History {
        submitted: Set::empty(),
        pending: None,
        disallowed: Set::empty(),
        proposed: Seq::empty(),
    }
}

/// A consistent history: absent letters were submitted, and what was proposed
/// is what was submitted together with the pending letter.
pub open spec fn history_ok(h: History) -> bool {
    &&& h.disallowed.subset_of(h.submitted)
    &&& forall|x: u8|
        #![trigger h.proposed.contains(x)]
        #![trigger h.submitted.contains(x)]
        h.proposed.contains(x) <==> (h.submitted.contains(x) || h.pending == Some(x))
}

/// Folds the pending letter into the history, once the masked word `m` of the
/// next turn shows whether it occurs in the secret word.
pub open spec fn reconcile(h: History, m: Seq<char>) -> History {
    match h.pending {
        None => h,
        Some(c) => History {
            submitted: h.submitted.insert(c),
            pending: None,
            disallowed: if has_letter(m, c) {
                h.disallowed
            } else {
                h.disallowed.insert(c)
            },
            proposed: h.proposed,
        },
    }
}

/// `c` may be proposed on a turn: an uppercase letter, not submitted, that
/// occurs in the surviving candidates.
pub open spec fn is_candidate(ws: Seq<Seq<char>>, m: Seq<char>, h: History, c: u8) -> bool {
    is_upper(c) && !h.submitted.contains(c) && frequency(ws, m, h.disallowed, c) > 0
}

/// `c` is a candidate of the largest frequency.
pub open spec fn in_first_rank(ws: Seq<Seq<char>>, m: Seq<char>, h: History, c: u8) -> bool {
    &&& is_candidate(ws, m, h, c)
    &&& forall|x: u8|
        #[trigger] is_candidate(ws, m, h, x) ==> frequency(ws, m, h.disallowed, x) <= frequency(
            ws,
            m,
            h.disallowed,
            c,
        )
}

/// Some letter is a candidate on this turn.
pub open spec fn has_candidate(ws: Seq<Seq<char>>, m: Seq<char>, h: History) -> bool {
    exists|x: u8| is_candidate(ws, m, h, x)
}

/// Reconciling only adds to the history: no letter leaves `submitted` or
/// `disallowed`, every absent letter stays among the submitted ones, and no
/// letter is left pending.
pub proof fn lemma_reconcile_grows(h: History, m: Seq<char>)
    requires
        history_ok(h),
    ensures
        h.submitted.subset_of(reconcile(h, m).submitted),
        h.disallowed.subset_of(reconcile(h, m).disallowed),
        reconcile(h, m).disallowed.subset_of(reconcile(h, m).submitted),
        history_ok(reconcile(h, m)),
        reconcile(h, m).pending is None,
        reconcile(h, m).proposed == h.proposed,
{
}

/// A letter of the first rank was never proposed before: reconciling folds
/// every earlier proposal into `submitted`, which the first rank leaves out.
/// So proposing it keeps the proposals free of repeats.
pub proof fn lemma_first_rank_is_new(ws: Seq<Seq<char>>, m: Seq<char>, h: History, c: u8)
    requires
        history_ok(h),
        in_first_rank(ws, m, reconcile(h, m), c),
    ensures
        !h.proposed.contains(c),
        h.proposed.no_duplicates() ==> h.proposed.push(c).no_duplicates(),
{
    let p = h.proposed.push(c);
    if h.proposed.no_duplicates() {
        assert forall|a: int, b: int|
            0 <= a < p.len() && 0 <= b < p.len() && a != b implies #[trigger] p[a] != #[trigger] p[b] by {
            if a == p.len() - 1 {
                assert(h.proposed.contains(p[b]) || b == p.len() - 1);
            } else if b == p.len() - 1 {
                assert(h.proposed[a] == p[a]);
            }
        }
    }
}

/// Whether the letter `c` occurs in the masked word.
fn mask_has_letter(word: &str, c: u8) -> (r: bool)
    requires
        is_masked_word(word@),
    ensures
        r == has_letter(word@, c),
{
    let bytes = word.as_bytes();
    proof {
        crate::letters::lemma_masked_word_is_ascii(word@);
        vstd::utf8::is_ascii_chars_encode_utf8(word@);
    }
    let mut i: usize = 0;
    while i < bytes.len()
        invariant
            bytes@.len() == word@.len(),
            forall|k: int| 0 <= k < word@.len() ==> #[trigger] bytes@[k] == word@[k] as u8,
            forall|k: int| 0 <= k < i ==> #[trigger] word@[k] as u8 != c,
        decreases bytes@.len() - i,
    {
        if bytes[i] == c {
            assert(word@[i as int] as u8 == c);
            return true;
        }
        i += 1;
    }
    false
}

/// The guess history and the generator of one game.
pub struct SolverState {
    submitted: LetterSet,
    uncharacterized: Option<u8>,
    disallow: LetterSet,
    rng: SquirrelRng,
    proposed: Ghost<Seq<u8>>,
}

impl SolverState {
    /// The history that this state holds.
    pub closed spec fn history(&self) -> History {
        History {
            submitted: set_letters(self.submitted),
            pending: self.uncharacterized,
            disallowed: set_letters(self.disallow),
            proposed: self.proposed@,
        }
    }

    /// The state is consistent.
    pub closed spec fn wf(&self) -> bool {
        history_ok(self.history())
    }

    /// A fresh state whose generator starts from `seed`.
    pub fn with_seed(seed: u32) -> (r: Self)
        ensures
            r.wf(),
            r.history() == empty_history(),
    {
        let r = SolverState {
            submitted: LetterSet::new(),
            uncharacterized: None,
            disallow: LetterSet::new(),
            rng: SquirrelRng::with_seed(seed),
            proposed: Ghost(Seq::empty()),
        };
        assert(r.history().submitted =~= Set::empty());
        assert(r.history().disallowed =~= Set::empty());
        r
    }

    /// Folds the pending letter into the history, as `reconcile` says.
    fn characterize(&mut self, word: &str)
        requires
            old(self).wf(),
            is_masked_word(word@),
        ensures
            final(self).wf(),
            final(self).history() == reconcile(old(self).history(), word@),
            final(self).rng == old(self).rng,
            old(self).history().pending is None ==> *final(self) == *old(self),
    {
        match self.uncharacterized {
            Some(u) => {
                self.submitted.insert(u);
                if !mask_has_letter(word, u) {
                    self.disallow.insert(u);
                }
                self.uncharacterized = None;
            },
            None => {},
        }
    }

    /// One turn. Reconciles the pending letter against `word`, then proposes a
    /// letter of the first rank of the surviving candidates, or an uppercase
    /// letter drawn from the whole alphabet where no candidate is left. The
    /// proposal becomes the pending letter. `_guesses_remaining` does not
    /// change the choice.
    pub fn next(&mut self, word: &str, _guesses_remaining: usize, dictionary: &[String]) -> (r:
        char)
        requires
            old(self).wf(),
            is_masked_word(word@),
            all_ascii(words_of(dictionary@)),
            total_letters(words_of(dictionary@)) <= usize::MAX,
        ensures
            final(self).wf(),
            'A' <= r <= 'Z',
            final(self).history().submitted == reconcile(old(self).history(), word@).submitted,
            final(self).history().disallowed == reconcile(old(self).history(), word@).disallowed,
            final(self).history().pending == Some(r as u8),
            final(self).history().proposed == old(self).history().proposed.push(r as u8),
            has_candidate(words_of(dictionary@), word@, reconcile(old(self).history(), word@))
                ==> in_first_rank(
                words_of(dictionary@),
                word@,
                reconcile(old(self).history(), word@),
                r as u8,
            ),
            has_candidate(words_of(dictionary@), word@, reconcile(old(self).history(), word@))
                ==> !old(self).history().proposed.contains(r as u8),
            has_candidate(words_of(dictionary@), word@, reconcile(old(self).history(), word@))
                && old(self).history().proposed.no_duplicates()
                ==> final(self).history().proposed.no_duplicates(),
            final(self).history().disallowed.subset_of(final(self).history().submitted),
            old(self).history().submitted.subset_of(final(self).history().submitted),
            old(self).history().disallowed.subset_of(final(self).history().disallowed),
    {
        let ghost h0 = self.history();
        self.characterize(word);
        let ghost ws = words_of(dictionary@);
        let ghost h = self.history();
        let entries = letter_frequencies(dictionary, word, &self.disallow);
        let mut by_frequency: Vec<(u8, usize)> = Vec::new();
        let mut i: usize = 0;
        while i < entries.len()
            invariant
                i <= entries@.len(),
                h == self.history(),
                is_frequency_list(entries@, ws, word@, h.disallowed),
                forall|k: int|
                    0 <= k < by_frequency@.len() ==> is_candidate(
                        ws,
                        word@,
                        h,
                        #[trigger] by_frequency@[k].0,
                    ) && by_frequency@[k].1 == frequency(ws, word@, h.disallowed, by_frequency@[k].0),
                forall|k: int|
                    0 <= k < i ==> is_candidate(ws, word@, h, #[trigger] entries@[k].0)
                        ==> by_frequency@.contains(entries@[k]),
            decreases entries@.len() - i,
        {
            let entry = entries[i];
            let ghost before = by_frequency@;
            if !self.submitted.contains(entry.0) {
                by_frequency.push(entry);
            }
            proof {
                assert forall|k: int|
                    0 <= k < i + 1 && is_candidate(
                        ws,
                        word@,
                        h,
                        #[trigger] entries@[k].0,
                    ) implies by_frequency@.contains(entries@[k]) by {
                    if k == i {
                        assert(by_frequency@[by_frequency@.len() - 1] == entry);
                    } else {
                        let j = choose|j: int| 0 <= j < before.len() && before[j] == entries@[k];
                        assert(by_frequency@[j] == entries@[k]);
                    }
                }
            }
            i += 1;
        }
        assert forall|x: u8| #[trigger]
            is_candidate(ws, word@, h, x) implies by_frequency@.contains(
            (x, frequency(ws, word@, h.disallowed, x) as usize),
        ) by {
            assert(frequency(ws, word@, h.disallowed, x) > 0);
            let k = choose|k: int| 0 <= k < entries@.len() && #[trigger] entries@[k].0 == x;
            assert(entries@[k] == (x, frequency(ws, word@, h.disallowed, x) as usize));
        }
        let selected: u8;
        if by_frequency.len() > 0 {
            let ghost unranked = by_frequency@;
            let best = first_most_frequent(&by_frequency);
            let tail = entries_from(&by_frequency, best);
            let ghost led = tail@;
            let ranked = first_rank_by_key(tail);
            proof {
                led.lemma_filter_contains(has_count(led[0].1), 0);
            }
            let mut first_rank: Vec<u8> = Vec::new();
            let mut k: usize = 0;
            while k < ranked.len()
                invariant
                    k <= ranked@.len(),
                    first_rank@.len() == k,
                    forall|j: int| 0 <= j < k ==> #[trigger] first_rank@[j] == ranked@[j].0,
                decreases ranked@.len() - k,
            {
                first_rank.push(ranked[k].0);
                k += 1;
            }
            assert(ranked@.len() > 0);
            let choice = pick_one(first_rank.as_slice(), &mut self.rng);
            let c = *choice.unwrap();
            proof {
                let j = choose|j: int| 0 <= j < first_rank@.len() && first_rank@[j] == c;
                let item = ranked@[j];
                led.lemma_filter_pred(has_count(led[0].1), j);
                led.lemma_filter_contains_rev(has_count(led[0].1), item);
                assert(led.contains(item));
                let t = choose|t: int| 0 <= t < led.len() && led[t] == item;
                assert(unranked[best + t] == item);
                assert(unranked.contains(item));
                let u = choose|u: int| 0 <= u < unranked.len() && unranked[u] == item;
                assert(item.0 == c);
                assert(item.1 == led[0].1);
                assert(item.1 == frequency(ws, word@, h.disallowed, c));
                assert(is_candidate(ws, word@, h, c));
                assert forall|x: u8| #[trigger]
                    is_candidate(ws, word@, h, x) implies frequency(ws, word@, h.disallowed, x)
                    <= frequency(ws, word@, h.disallowed, c) by {
                    assert(frequency(ws, word@, h.disallowed, x) > 0);
                    let k = choose|k: int| 0 <= k < entries@.len() && #[trigger] entries@[k].0 == x;
                    let pair = (x, frequency(ws, word@, h.disallowed, x) as usize);
                    assert(unranked.contains(pair));
                    let v = choose|v: int| 0 <= v < unranked.len() && unranked[v] == pair;
                    assert(unranked[v].1 <= unranked[best as int].1);
                }
            }
            selected = c;
        } else {
            let mut alphabet: Vec<u8> = Vec::new();
            let mut letter: u8 = 65;
            while letter <= 90
                invariant
                    65 <= letter <= 91,
                    alphabet@.len() == letter - 65,
                    forall|j: int| 0 <= j < alphabet@.len() ==> is_upper(#[trigger] alphabet@[j]),
                decreases 91 - letter,
            {
                alphabet.push(letter);
                letter += 1;
            }
            let choice = pick_one(alphabet.as_slice(), &mut self.rng);
            let c = *choice.unwrap();
            proof {
                if has_candidate(ws, word@, h) {
                    let x = choose|x: u8| is_candidate(ws, word@, h, x);
                    assert(by_frequency@.contains(
                        (x, frequency(ws, word@, h.disallowed, x) as usize),
                    ));
                }
            }
            selected = c;
        }
        self.uncharacterized = Some(selected);
        self.proposed = Ghost(self.proposed@.push(selected));
        proof {
            if has_candidate(ws, word@, h) {
                assert(in_first_rank(ws, word@, h, selected));
                lemma_first_rank_is_new(ws, word@, h0, selected);
            }
            assert forall|x: u8| #[trigger] self.history().proposed.contains(x) <==> (
            self.history().submitted.contains(x) || self.history().pending == Some(x)) by {
                if self.history().proposed.contains(x) && x != selected {
                    let j = choose|j: int|
                        0 <= j < self.history().proposed.len() && self.history().proposed[j]
                            == x;
                    assert(h.proposed[j] == x);
                }
                if x == selected {
                    assert(self.history().proposed.last() == x);
                }
                if h.proposed.contains(x) {
                    let j = choose|j: int| 0 <= j < h.proposed.len() && h.proposed[j] == x;
                    assert(self.history().proposed[j] == x);
                }
            }
        }
        selected as char
    }
}

} // verus!

verus! {

/// A dictionary that a guesser can work on: ASCII words whose characters,
/// all together, can be counted in a `usize`.
pub open spec fn dictionary_ok(ws: Seq<Seq<char>>) -> bool {
    all_ascii(ws) && total_letters(ws) <= usize::MAX
}

/// The characters of a list of string slices.
pub open spec fn strs_of(ws: Seq<&str>) -> Seq<Seq<char>> {
    ws.map_values(|s: &str| s@)
}

/// A word of the word list that goes into the dictionary: ASCII, and at least
/// five characters long.
pub open spec fn kept(w: Seq<char>) -> bool {
    vstd::utf8::is_ascii_chars(w) && w.len() >= 5
}

/// The dictionary made from a word list: the kept words, in uppercase, in
/// their order.
pub open spec fn loaded(ws: Seq<Seq<char>>) -> Seq<Seq<char>>
    decreases ws.len(),
{
    if ws.len() == 0 {
        Seq::empty()
    } else if kept(ws.last()) {
        loaded(ws.drop_last()).push(upper_word(ws.last()))
    } else {
        loaded(ws.drop_last())
    }
}

/// `a` comes before `b`, or equals it, comparing character by character.
pub open spec fn lex_le(a: Seq<char>, b: Seq<char>) -> bool
    decreases a.len(),
{
    if a.len() == 0 {
        true
    } else if b.len() == 0 {
        false
    } else if a[0] != b[0] {
        a[0] < b[0]
    } else {
        lex_le(a.drop_first(), b.drop_first())
    }
}

/// The words are in ascending order.
pub open spec fn is_sorted_words(ws: Seq<Seq<char>>) -> bool {
    forall|i: int, j: int| 0 <= i < j < ws.len() ==> lex_le(#[trigger] ws[i], #[trigger] ws[j])
}

/// Relies on `slice::sort_unstable` on strings: the same words, ascending in
/// the order of `String`, which compares bytes and so, in UTF-8, characters.
#[verifier::external_body]
fn sort_words(words: &mut Vec<String>)
    ensures
        words_of(final(words)@).to_multiset() == words_of(old(words)@).to_multiset(),
        is_sorted_words(words_of(final(words)@)),
{
    words.sort_unstable()
}

/// The dictionary of a word list, in its order: the ASCII words of at least
/// five characters, in uppercase.
pub fn read_words(words: &[&str]) -> (r: Vec<String>)
    requires
        total_letters(strs_of(words@)) <= usize::MAX,
    ensures
        words_of(r@) == loaded(strs_of(words@)),
        dictionary_ok(words_of(r@)),
{
    let ghost ws = strs_of(words@);
    let mut dictionary: Vec<String> = Vec::new();
    let mut i: usize = 0;
    while i < words.len()
        invariant
            i <= words@.len(),
            ws == strs_of(words@),
            total_letters(ws) <= usize::MAX,
            words_of(dictionary@) == loaded(ws.subrange(0, i as int)),
            all_ascii(words_of(dictionary@)),
            total_letters(words_of(dictionary@)) <= total_letters(ws.subrange(0, i as int)),
        decreases words@.len() - i,
    {
        let word = words[i];
        let ghost pre = ws.subrange(0, i as int);
        let ghost next = ws.subrange(0, i as int + 1);
        proof {
            assert(next.drop_last() =~= pre);
            assert(next.last() == word@);
            crate::tally::lemma_total_prefix(ws, i as int + 1);
        }
        if word.is_ascii() && word.len() >= 5 {
            let upper = to_upper(word);
            proof {
                lemma_upper_word_ascii(word@);
            }
            let ghost old_words = words_of(dictionary@);
            dictionary.push(upper);
            proof {
                assert(words_of(dictionary@) =~= old_words.push(upper@));
                assert(words_of(dictionary@).drop_last() =~= old_words);
            }
        }
        i += 1;
    }
    proof {
        assert(ws.subrange(0, i as int) =~= ws);
    }
    dictionary
}

/// The uppercase form of an ASCII word is ASCII.
proof fn lemma_upper_word_ascii(w: Seq<char>)
    requires
        vstd::utf8::is_ascii_chars(w),
    ensures
        vstd::utf8::is_ascii_chars(upper_word(w)),
        upper_word(w).len() == w.len(),
{
    assert forall|i: int| 0 <= i < upper_word(w).len() implies '\0' <= #[trigger] upper_word(
        w,
    )[i] <= '\u{7f}' by {
        assert(w[i] <= '\u{7f}');
    }
}

/// Builds a guesser's dictionary.
pub struct StrategicSolverFactory {
    dictionary: Vec<String>,
}

impl StrategicSolverFactory {
    /// The words of the dictionary.
    pub closed spec fn words(&self) -> Seq<Seq<char>> {
        words_of(self.dictionary@)
    }

    /// Keeps the ASCII words of at least five characters, in uppercase, and
    /// sorts them.
    pub fn from_words(words: &[&str]) -> (r: Self)
        requires
            total_letters(strs_of(words@)) <= usize::MAX,
        ensures
            r.words().to_multiset() == loaded(strs_of(words@)).to_multiset(),
            is_sorted_words(r.words()),
            dictionary_ok(r.words()),
    {
        let mut dictionary = read_words(words);
        let ghost before = words_of(dictionary@);
        sort_words(&mut dictionary);
        proof {
            broadcast use vstd::seq_lib::group_to_multiset_ensures;

            let after = words_of(dictionary@);
            crate::tally::lemma_total_permutation(before, after);
            assert forall|i: int| 0 <= i < after.len() implies vstd::utf8::is_ascii_chars(
                #[trigger] after[i],
            ) by {
                assert(after.contains(after[i]));
                assert(before.to_multiset().count(after[i]) > 0);
                let k = choose|k: int| 0 <= k < before.len() && before[k] == after[i];
            }
        }
        StrategicSolverFactory { dictionary }
    }

    /// The dictionary, sorted.
    pub fn dictionary(&self) -> (r: &[String])
        ensures
            words_of(r@) == self.words(),
    {
        self.dictionary.as_slice()
    }

    /// A guesser that borrows this dictionary, with the default seed.
    pub fn solver(&self) -> (r: StrategicSolver<'_>)
        requires
            dictionary_ok(self.words()),
        ensures
            r.ready(),
            r.words() == self.words(),
            r.history() == empty_history(),
    {
        StrategicSolver { dictionary: self.dictionary.as_slice(), state: SolverState::with_seed(DEFAULT_SEED) }
    }

    /// A guesser that owns this dictionary, with the default seed.
    pub fn into_solver(self) -> (r: IntoStrategicSolver)
        requires
            dictionary_ok(self.words()),
        ensures
            r.ready(),
            r.words() == self.words(),
            r.history() == empty_history(),
    {
        self.into_solver_with_seed(DEFAULT_SEED)
    }

    /// A guesser that owns this dictionary, its generator started from `seed`.
    pub fn into_solver_with_seed(self, seed: u32) -> (r: IntoStrategicSolver)
        requires
            dictionary_ok(self.words()),
        ensures
            r.ready(),
            r.words() == self.words(),
            r.history() == empty_history(),
    {
        IntoStrategicSolver { dictionary: self.dictionary, state: SolverState::with_seed(seed) }
    }
}

/// A strategic guesser that owns its dictionary.
pub struct IntoStrategicSolver {
    dictionary: Vec<String>,
    state: SolverState,
}

impl IntoStrategicSolver {
    /// The words of the dictionary.
    pub closed spec fn words(&self) -> Seq<Seq<char>> {
        words_of(self.dictionary@)
    }

    /// What the guesser remembers of its game.
    pub closed spec fn history(&self) -> History {
        self.state.history()
    }

    /// Whether `c` was proposed and reconciled.
    pub fn is_submitted(&self, c: u8) -> (r: bool)
        ensures
            r == self.history().submitted.contains(c),
    {
        self.state.submitted.contains(c)
    }

    /// Whether `c` is known to be absent from the secret word.
    pub fn is_disallowed(&self, c: u8) -> (r: bool)
        ensures
            r == self.history().disallowed.contains(c),
    {
        self.state.disallow.contains(c)
    }

    /// The letter proposed last, while it is not reconciled.
    pub fn pending(&self) -> (r: Option<u8>)
        ensures
            r == self.history().pending,
    {
        self.state.uncharacterized
    }
}

impl Solver for IntoStrategicSolver {
    closed spec fn ready(&self) -> bool {
        dictionary_ok(self.words()) && self.state.wf()
    }

    fn next_letter(&mut self, word: &str, guesses_remaining: usize) -> (r: char)
        ensures
            'A' <= r <= 'Z',
            final(self).words() == old(self).words(),
            final(self).history().submitted == reconcile(old(self).history(), word@).submitted,
            final(self).history().disallowed == reconcile(old(self).history(), word@).disallowed,
            final(self).history().pending == Some(r as u8),
            final(self).history().proposed == old(self).history().proposed.push(r as u8),
            has_candidate(old(self).words(), word@, reconcile(old(self).history(), word@))
                ==> in_first_rank(
                old(self).words(),
                word@,
                reconcile(old(self).history(), word@),
                r as u8,
            ),
            has_candidate(old(self).words(), word@, reconcile(old(self).history(), word@))
                ==> !old(self).history().proposed.contains(r as u8),
            has_candidate(old(self).words(), word@, reconcile(old(self).history(), word@))
                && old(self).history().proposed.no_duplicates()
                ==> final(self).history().proposed.no_duplicates(),
            final(self).history().disallowed.subset_of(final(self).history().submitted),
            old(self).history().submitted.subset_of(final(self).history().submitted),
            old(self).history().disallowed.subset_of(final(self).history().disallowed),
    {
        self.state.next(word, guesses_remaining, self.dictionary.as_slice())
    }
}

/// A strategic guesser that borrows its dictionary.
pub struct StrategicSolver<'a> {
    dictionary: &'a [String],
    state: SolverState,
}

impl<'a> StrategicSolver<'a> {
    /// The words of the dictionary.
    pub closed spec fn words(&self) -> Seq<Seq<char>> {
        words_of(self.dictionary@)
    }

    /// What the guesser remembers of its game.
    pub closed spec fn history(&self) -> History {
        self.state.history()
    }
}

impl<'a> Solver for StrategicSolver<'a> {
    closed spec fn ready(&self) -> bool {
        dictionary_ok(self.words()) && self.state.wf()
    }

    fn next_letter(&mut self, word: &str, guesses_remaining: usize) -> (r: char)
        ensures
            'A' <= r <= 'Z',
            final(self).words() == old(self).words(),
            final(self).history().submitted == reconcile(old(self).history(), word@).submitted,
            final(self).history().disallowed == reconcile(old(self).history(), word@).disallowed,
            final(self).history().pending == Some(r as u8),
            final(self).history().proposed == old(self).history().proposed.push(r as u8),
            has_candidate(old(self).words(), word@, reconcile(old(self).history(), word@))
                ==> in_first_rank(
                old(self).words(),
                word@,
                reconcile(old(self).history(), word@),
                r as u8,
            ),
            has_candidate(old(self).words(), word@, reconcile(old(self).history(), word@))
                ==> !old(self).history().proposed.contains(r as u8),
            has_candidate(old(self).words(), word@, reconcile(old(self).history(), word@))
                && old(self).history().proposed.no_duplicates()
                ==> final(self).history().proposed.no_duplicates(),
            final(self).history().disallowed.subset_of(final(self).history().submitted),
            old(self).history().submitted.subset_of(final(self).history().submitted),
            old(self).history().disallowed.subset_of(final(self).history().disallowed),
    {
        self.state.next(word, guesses_remaining, self.dictionary)
    }
}

} // verus!
