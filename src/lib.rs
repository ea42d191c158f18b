//! # Connect4
//!
//! Rules of the board game Connect Four: a board onto which two players drop
//! pieces by gravity, the legal turns, and the detection of four in a row.

use vstd::prelude::*;

pub mod piece;
pub mod turn;
pub mod board;
pub mod winner;
pub mod game;
pub mod laws;

pub use board::Board;
pub use game::Connect4;
pub use piece::{Player, Square};
pub use turn::Turn;

verus! {

/// Number of rows of the board; row 0 is the bottom one.
pub const ROWS: usize = 6;

/// Number of columns of the board.
pub const COLS: usize = 7;

/// Number of equal pieces in a line that win the game.
pub const CONNECT: usize = 4;

} // verus!
