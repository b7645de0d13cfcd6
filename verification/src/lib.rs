//! A verified engine for the 15-puzzle: a 4x4 board of sliding tiles, the
//! parity rule that tells solvable arrangements from unsolvable ones, and a
//! game that counts effective moves and notices the solved board.

pub mod board;
pub mod error;
pub mod game;
pub mod laws;
pub mod operation;
pub mod text;
pub mod tile;

pub use crate::tile::Tile;
