//! Hangman: the rules of a game and the strategies that guess its letters.
//!
//! The strategic guesser filters a dictionary by the masked word of each turn
//! and by the letters it has learned to be absent, counts the letters of the
//! words that survive, and proposes one of the most frequent letters that it
//! has not proposed before. The game module holds the server's side: the
//! masked word, wins and losses, and the answer to each guess.

pub mod chance;
pub mod collections;
pub mod game;
pub mod letters;
pub mod protocol;
pub mod random;
pub mod rank;
pub mod solver;
pub mod strategic;
pub mod tally;

pub use game::{CreateGameResponse, Game, GameResponse, UpdateGameResponse};
pub use protocol::UpdateGameRequest;
pub use random::RandomSolver;
pub use solver::Solver;
pub use strategic::{IntoStrategicSolver, StrategicSolver, StrategicSolverFactory};
