//! The pseudo-random choices of the guessers.
use rand::seq::{IndexedRandom, SliceRandom};
use squirrel_rng::SquirrelRng;
use vstd::prelude::*;

verus! {

#[verifier::external_type_specification]
#[verifier::external_body]
pub struct ExSquirrelRng(SquirrelRng);

/// Relies on `SquirrelRng::with_seed`: a generator at the start of the
/// sequence that `seed` fixes.
pub assume_specification[ SquirrelRng::with_seed ](seed: u32) -> SquirrelRng;

/// Relies on rand's `IndexedRandom::choose`: `None` exactly when the slice is
/// empty, else one of its items.
#[verifier::external_body]
pub(crate) fn pick_one<'a, T>(items: &'a [T], rng: &mut SquirrelRng) -> (r: Option<&'a T>)
    ensures
        r is None <==> items@.len() == 0,
        r matches Some(x) ==> items@.contains(*x),
{
    items.choose(rng)
}

/// Relies on rand's `SliceRandom::shuffle`: the same items, in a new order.
#[verifier::external_body]
pub(crate) fn shuffle_letters(letters: &mut Vec<u8>, rng: &mut SquirrelRng)
    ensures
        final(letters)@.to_multiset() == old(letters)@.to_multiset(),
{
    letters.shuffle(rng)
}

} // verus!
