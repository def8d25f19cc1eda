//! The board and turn logic of the sliding-tile puzzle 2048.
//!
//! - `line`: one row or column and the slide-and-combine transform on it.
//! - `board`: the 4×4 board, slides in four directions, win and loss tests,
//!   start positions and turns.
//! - `turn`: what a turn does to the board, as a model over grids of integers.
//! - `laws`: properties that relate the operations to each other.
//! - `render`: the board as bordered text.
pub mod line;
pub mod board;
pub mod turn;
mod random;
pub mod laws;
pub mod render;

pub use board::{Board, Direction, MoveOutcome};
