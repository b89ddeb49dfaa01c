//! Noughts and crosses with a computer player that searches the whole game
//! tree.
//!
//! [`board`] holds the nine cells and decides when a game is over, [`game`]
//! places marks, [`search`] picks the computer's move by minimax, [`text`]
//! reads what the human typed, and [`play`] states what holds of the boards
//! that come up in play.

pub mod board;
pub mod game;
pub mod play;
pub mod search;
pub mod sign;
pub mod text;

pub use board::Board;
pub use game::{Game, MoveError};
pub use sign::{get_sign, Player, Sign};
