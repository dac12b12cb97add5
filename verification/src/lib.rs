//! The four-numbers game: write a nonnegative integer on each corner of a
//! square, replace every corner by the absolute difference between it and
//! its neighbour, and count the squares it takes to reach the all-zero
//! square.
//!
//! Squares that differ only by where the reading starts are the same square,
//! so equality, the hash key and the table of solved squares all work on
//! rotation classes.

pub mod engine;
pub mod game;
pub mod input;
pub mod memo;
pub mod quad;
pub mod square;
pub mod text;

pub use engine::resolve;
pub use memo::Memo;
pub use quad::Quad;
pub use square::{Square, UNRESOLVED};
