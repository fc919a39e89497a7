//! A minesweeper board engine: a rectangular grid of cells, random mine
//! placement, adjacency-hint derivation, a textual debug encoding with its
//! decoder, and a masked "revealed" rendering.

pub mod cell;
pub mod codec;
pub mod grid;
pub mod laws;
pub mod render;

pub use cell::Cell;
pub use cell::Status;
pub use grid::Grid;
