//! The interface that every guessing strategy offers to the game loop.
use vstd::prelude::*;

verus! {

/// A guessing strategy: one letter per turn, from the masked word of that turn.
pub trait Solver {
    /// The strategy's own state is consistent.
    spec fn ready(&self) -> bool;

    /// Proposes the next letter for the masked word `word`.
    fn next_letter(&mut self, word: &str, guesses_remaining: usize) -> (r: char)
        requires
            old(self).ready(),
            crate::letters::is_masked_word(word@),
        ensures
            final(self).ready(),
    ;
}

} // verus!
