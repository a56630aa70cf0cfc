//! The random guesser: the lowercase alphabet in a shuffled order, proposed
//! letter by letter and then again from the start.
use crate::chance::shuffle_letters;
use crate::solver::Solver;
use squirrel_rng::SquirrelRng;
use vstd::prelude::*;

verus! {

broadcast use vstd::seq_lib::group_to_multiset_ensures;

/// The byte of a lowercase ASCII letter.
pub open spec fn is_lower(c: u8) -> bool {
    97 <= c <= 122
}

/// The lowercase alphabet in order.
pub open spec fn lower_alphabet() -> Seq<u8> {
    Seq::new(26, |i: int| (97 + i) as u8)
}

/// Proposes the letters of a shuffled alphabet in turn.
pub struct RandomSolver {
    idx: usize,
    alpha: Vec<u8>,
}

impl RandomSolver {
    /// The order in which the letters are proposed.
    pub closed spec fn order(&self) -> Seq<u8> {
        self.alpha@
    }

    /// How many letters of the order were proposed since it last started over.
    pub closed spec fn position(&self) -> nat {
        self.idx as nat
    }

    /// The order holds the twenty-six lowercase letters, and the position lies
    /// within it.
    pub closed spec fn wf(&self) -> bool {
        &&& self.alpha@.len() == 26
        &&& self.idx <= 26
        &&& forall|i: int| 0 <= i < 26 ==> is_lower(#[trigger] self.alpha@[i])
    }

    /// The lowercase alphabet shuffled by the generator `rng`.
    pub fn new(rng: SquirrelRng) -> (r: Self)
        ensures
            r.wf(),
            r.position() == 0,
            r.order().to_multiset() == lower_alphabet().to_multiset(),
    {
        let mut alpha: Vec<u8> = Vec::new();
        let mut c: u8 = 97;
        while c <= 122
            invariant
                97 <= c <= 123,
                alpha@ == lower_alphabet().subrange(0, c - 97),
            decreases 123 - c,
        {
            alpha.push(c);
            assert(alpha@ =~= lower_alphabet().subrange(0, c - 96));
            c += 1;
        }
        assert(alpha@ =~= lower_alphabet());
        let ghost before = alpha@;
        let mut rng = rng;
        shuffle_letters(&mut alpha, &mut rng);
        assert(alpha@.len() == alpha@.to_multiset().len());
        assert(before.len() == before.to_multiset().len());
        assert forall|i: int| 0 <= i < 26 implies is_lower(#[trigger] alpha@[i]) by {
            assert(alpha@.contains(alpha@[i]));
            assert(before.to_multiset().count(alpha@[i]) > 0);
            assert(before.contains(alpha@[i]));
        }
        RandomSolver { idx: 0, alpha }
    }

    /// The next letter of the order, starting over after the last one.
    pub fn next(&mut self) -> (r: char)
        requires
            old(self).wf(),
        ensures
            final(self).wf(),
            final(self).order() == old(self).order(),
            old(self).position() < 26 ==> r as u8 == old(self).order()[old(self).position() as int]
                && final(self).position() == old(self).position() + 1,
            old(self).position() == 26 ==> r as u8 == old(self).order()[0]
                && final(self).position() == 1,
            'a' <= r <= 'z',
    {
        if self.idx >= self.alpha.len() {
            self.idx = 0;
        }
        let next = self.alpha[self.idx];
        self.idx += 1;
        next as char
    }
}

impl Solver for RandomSolver {
    closed spec fn ready(&self) -> bool {
        self.wf()
    }

    fn next_letter(&mut self, word: &str, _guesses_remaining: usize) -> (r: char)
        ensures
            final(self).order() == old(self).order(),
            old(self).position() < 26 ==> r as u8 == old(self).order()[old(self).position() as int]
                && final(self).position() == old(self).position() + 1,
            old(self).position() == 26 ==> r as u8 == old(self).order()[0]
                && final(self).position() == 1,
            'a' <= r <= 'z',
    {
        self.next()
    }
}

} // verus!
