//! The hash collections that hold a guesser's letters and tallies.
use vstd::prelude::*;

verus! {

/// A set of letter bytes, kept in a `hashbrown::HashSet`.
#[verifier::external_body]
pub struct LetterSet {
    inner: hashbrown::HashSet<u8>,
}

/// The letters that a `LetterSet` holds.
pub uninterp spec fn set_letters(s: LetterSet) -> Set<u8>;

impl LetterSet {
    /// Relies on hashbrown's `HashSet::new`: the new set is empty.
    #[verifier::external_body]
    pub(crate) fn new() -> (r: LetterSet)
        ensures
            set_letters(r) == Set::<u8>::empty(),
    {
        LetterSet { inner: hashbrown::HashSet::new() }
    }

    /// Relies on hashbrown's `HashSet::insert`: afterwards the set also holds `c`.
    #[verifier::external_body]
    pub(crate) fn insert(&mut self, c: u8)
        ensures
            set_letters(*final(self)) == set_letters(*old(self)).insert(c),
    {
        self.inner.insert(c);
    }

    /// Relies on hashbrown's `HashSet::contains`: whether the set holds `c`.
    #[verifier::external_body]
    pub(crate) fn contains(&self, c: u8) -> (r: bool)
        ensures
            r == set_letters(*self).contains(c),
    {
        self.inner.contains(&c)
    }

    /// Relies on hashbrown's `HashSet::len`: the number of letters held.
    #[verifier::external_body]
    pub(crate) fn len(&self) -> (r: usize)
        ensures
            r == set_letters(*self).len(),
    {
        self.inner.len()
    }
}

impl LetterSet {
    /// The set of the letters of `letters`.
    pub fn of(letters: &[u8]) -> (r: LetterSet)
        ensures
            set_letters(r) == letters@.to_set(),
    {
        let mut r = LetterSet::new();
        assert(letters@.subrange(0, 0).to_set() =~= Set::<u8>::empty());
        let mut i: usize = 0;
        while i < letters.len()
            invariant
                i <= letters@.len(),
                set_letters(r) == letters@.subrange(0, i as int).to_set(),
            decreases letters@.len() - i,
        {
            proof {
                let next = letters@.subrange(0, i as int + 1);
                assert(next =~= letters@.subrange(0, i as int).push(letters@[i as int]));
                letters@.subrange(0, i as int).lemma_push_to_set_commute(letters@[i as int]);
            }
            r.insert(letters[i]);
            i += 1;
        }
        proof {
            assert(letters@.subrange(0, i as int) =~= letters@);
        }
        r
    }
}

/// A count per letter byte, kept in a `hashbrown::HashMap`.
#[verifier::external_body]
pub struct LetterTally {
    inner: hashbrown::HashMap<u8, usize>,
}

/// The counts that a `LetterTally` holds, by letter.
pub uninterp spec fn tally_counts(t: LetterTally) -> Map<u8, usize>;

impl LetterTally {
    /// Relies on hashbrown's `HashMap::new`: the new map is empty.
    #[verifier::external_body]
    pub(crate) fn new() -> (r: LetterTally)
        ensures
            tally_counts(r).dom() == Set::<u8>::empty(),
    {
        LetterTally { inner: hashbrown::HashMap::new() }
    }

    /// Relies on hashbrown's `HashMap::get`: the count stored for `c`, if any.
    #[verifier::external_body]
    pub(crate) fn get(&self, c: u8) -> (r: Option<usize>)
        ensures
            tally_counts(*self).contains_key(c) ==> r == Some(tally_counts(*self)[c]),
            !tally_counts(*self).contains_key(c) ==> r is None,
    {
        self.inner.get(&c).copied()
    }

    /// Relies on hashbrown's `HashMap::insert`: `c` now maps to `n`, the other
    /// keys keep their counts.
    #[verifier::external_body]
    pub(crate) fn insert(&mut self, c: u8, n: usize)
        ensures
            tally_counts(*final(self)) == tally_counts(*old(self)).insert(c, n),
    {
        self.inner.insert(c, n);
    }
}

} // verus!
