//! The atomic unit of board state: a status tag plus a discovered flag.

use vstd::prelude::*;

verus! {

/// The possible contents of a minesweeper cell.
#[derive(Copy, Clone, PartialEq, Eq, Structural)]
pub enum Status {
    /// No mine on this cell and no mine next to it.
    Empty,
    /// A mine occupies this cell.
    Mine,
    /// No mine here, but the given number of mines occupy the
    /// 8-neighborhood. Hint derivation only ever stores values in 1..=8.
    NearMine(u8),
}

/// One grid position: its content and whether the player has discovered it.
#[derive(Copy, Clone, PartialEq, Eq, Structural)]
pub struct Cell {
    /// The content of the cell.
    pub status: Status,
    /// Whether the cell has been discovered by the player. Grid generation
    /// never sets this; it starts out `false` for every new cell.
    pub discovered: bool,
}

impl Cell {
    /// Returns an empty, undiscovered cell.
    pub fn new() -> (c: Cell)
        ensures
            c == (Cell { status: Status::Empty, discovered: false }),
    {
        Cell { status: Status::Empty, discovered: false }
    }
}

} // verus!
