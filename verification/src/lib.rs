//! Rules engine for five-in-a-row on a square board.
//!
//! Two players place stones in turn. A player wins by starting an unbroken
//! line of five of their own stones at the cell they just played; the game is
//! drawn when the board fills up without a winner.

pub mod stone;
pub mod point;
pub mod error;
pub mod grid;
pub mod rules;
pub mod board;
pub mod game;
pub mod text;
