//! The messages of the game protocol that the library defines.
use vstd::prelude::*;

verus! {

/// A guess sent to the game server: a single letter, as a string.
#[derive(Clone, Debug)]
pub struct UpdateGameRequest {
    pub letter: String,
}

} // verus!
