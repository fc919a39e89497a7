//! The minesweeper grid: a rectangular collection of cells with
//! construction (empty / randomized), neighbor counting and hint derivation.

use vstd::prelude::*;
use vstd::std_specs::cmp::PartialEqSpec;

use crate::cell::Cell;
use crate::cell::Status;

verus! {

/// The minesweeper grid.
pub struct Grid {
    /// The dimensions of the grid: (rows, columns).
    pub(crate) dimensions: (usize, usize),
    /// The grid's rows, each an array of minesweeper cells.
    pub(crate) rows: Vec<Vec<Cell>>,
}

/// True when a hint value is one that hint derivation can produce: any
/// status except a `NearMine` count outside 1..=8.
pub open spec fn hint_in_range(s: Status) -> bool {
    match s {
        Status::NearMine(k) => 1 <= k <= 8,
        _ => true,
    }
}

/// The cell with everything but its mines erased: a mine cell keeps status
/// `Mine`, every other cell becomes `Empty`; the discovered flag is kept.
pub open spec fn mine_mask_cell(c: Cell) -> Cell {
    Cell {
        status: if c.status == Status::Mine {
            Status::Mine
        } else {
            Status::Empty
        },
        discovered: c.discovered,
    }
}

/// The grid with everything but its mines erased, cell by cell.
pub open spec fn mine_mask(g: Seq<Seq<Cell>>) -> Seq<Seq<Cell>> {
    g.map_values(|row: Seq<Cell>| row.map_values(|c: Cell| mine_mask_cell(c)))
}

/// 1 if the grid has a mine at `(r, c)`, 0 for any other status and for any
/// coordinate outside `[0, dims.0) x [0, dims.1)` (off-board neighbors
/// contribute nothing; there is no wraparound).
pub open spec fn mine_at(g: Seq<Seq<Cell>>, dims: (usize, usize), r: int, c: int) -> int {
    if 0 <= r < dims.0 && 0 <= c < dims.1 && g[r][c].status == Status::Mine {
        1
    } else {
        0
    }
}

/// The number of mines among the 8 neighbors of `(r, c)`. The cell itself
/// (offset (0, 0)) is never counted.
pub open spec fn count_mines_around(g: Seq<Seq<Cell>>, dims: (usize, usize), r: int, c: int) -> int {
    mine_at(g, dims, r - 1, c - 1) + mine_at(g, dims, r, c - 1) + mine_at(g, dims, r + 1, c - 1)
        + mine_at(g, dims, r - 1, c) + mine_at(g, dims, r, c + 1) + mine_at(g, dims, r - 1, c + 1)
        + mine_at(g, dims, r + 1, c) + mine_at(g, dims, r + 1, c + 1)
}

/// The cell that hint derivation leaves at `(r, c)`: a cell that is not a
/// mine and has at least one mine next to it takes status `NearMine(count)`;
/// mine cells and cells with zero adjacent mines are left unchanged.
pub open spec fn hinted_cell(g: Seq<Seq<Cell>>, dims: (usize, usize), r: int, c: int) -> Cell {
    let n = count_mines_around(g, dims, r, c);
    if n > 0 && g[r][c].status != Status::Mine {
        Cell { status: Status::NearMine(n as u8), discovered: g[r][c].discovered }
    } else {
        g[r][c]
    }
}

impl Grid {
    /// The grid's cells as a sequence of rows.
    pub open(crate) spec fn rows_seq(self) -> Seq<Seq<Cell>> {
        self.rows@.map_values(|row: Vec<Cell>| row@)
    }

    /// The grid's recorded dimensions: (rows, columns).
    pub open(crate) spec fn spec_dims(self) -> (usize, usize) {
        self.dimensions
    }

    /// Well-formedness: the recorded dimensions are exactly the shape of the
    /// cell rows.
    pub open spec fn wf(self) -> bool {
        &&& self.rows_seq().len() == self.spec_dims().0
        &&& forall|i: int|
            0 <= i < self.rows_seq().len() ==> (#[trigger] self.rows_seq()[i]).len()
                == self.spec_dims().1
    }

    /// Returns a `rows x cols` grid filled with undiscovered and empty cells.
    pub fn make_empty(rows: usize, cols: usize) -> (g: Grid)
        ensures
            g.wf(),
            g.spec_dims() == (rows, cols),
            forall|r: int, c: int|
                0 <= r < rows && 0 <= c < cols ==> #[trigger] g.rows_seq()[r][c] == (Cell {
                    status: Status::Empty,
                    discovered: false,
                }),
    {
        let mut grid_rows: Vec<Vec<Cell>> = Vec::new();
        for r in 0..rows
            invariant
                grid_rows@.len() == r,
                forall|i: int| 0 <= i < r ==> (#[trigger] grid_rows@[i]@).len() == cols,
                forall|i: int, j: int|
                    0 <= i < r && 0 <= j < cols ==> #[trigger] grid_rows@[i]@[j] == (Cell {
                        status: Status::Empty,
                        discovered: false,
                    }),
        {
            let mut row: Vec<Cell> = Vec::new();
            for c in 0..cols
                invariant
                    row@.len() == c,
                    forall|j: int|
                        0 <= j < c ==> #[trigger] row@[j] == (Cell {
                            status: Status::Empty,
                            discovered: false,
                        }),
            {
                row.push(Cell::new());
            }
            grid_rows.push(row);
        }
        let g = Grid { dimensions: (rows, cols), rows: grid_rows };
        assert forall|i: int| 0 <= i < g.rows_seq().len() implies (#[trigger] g.rows_seq()[i]).len()
            == cols by {
            assert(g.rows_seq()[i] == grid_rows@[i]@);
        }
        g
    }

    /// The dimensions of the grid: (rows, columns).
    pub fn dims(&self) -> (d: (usize, usize))
        ensures
            d == self.spec_dims(),
    {
        self.dimensions
    }

    /// Checks, for a grid position, the number of mines next to it.
    ///
    /// Examines the 8 offsets around `position`; any candidate coordinate
    /// that falls off the board is skipped.
    pub fn count_near_mines(&self, position: (usize, usize)) -> (n: u8)
        requires
            self.wf(),
            position.0 < self.spec_dims().0,
            position.1 < self.spec_dims().1,
        ensures
            n as int == count_mines_around(
                self.rows_seq(),
                self.spec_dims(),
                position.0 as int,
                position.1 as int,
            ),
            n <= 8,
    {
        let (pr, pc) = position;
        let (nrows, ncols) = self.dimensions;
        let mut nb_mines: u8 = 0;

        proof {
            assert(self.rows_seq()[pr as int] == self.rows@[pr as int]@);
            if pr > 0 {
                assert(self.rows_seq()[pr as int - 1] == self.rows@[pr as int - 1]@);
            }
            if pr + 1 < nrows {
                assert(self.rows_seq()[pr as int + 1] == self.rows@[pr as int + 1]@);
            }
        }

        if pr > 0 && pc > 0 && self.rows[pr - 1][pc - 1].status == Status::Mine {
            nb_mines = nb_mines + 1;
        }
        if pc > 0 && self.rows[pr][pc - 1].status == Status::Mine {
            nb_mines = nb_mines + 1;
        }
        if pr + 1 < nrows && pc > 0 && self.rows[pr + 1][pc - 1].status == Status::Mine {
            nb_mines = nb_mines + 1;
        }
        if pr > 0 && self.rows[pr - 1][pc].status == Status::Mine {
            nb_mines = nb_mines + 1;
        }
        if pc + 1 < ncols && self.rows[pr][pc + 1].status == Status::Mine {
            nb_mines = nb_mines + 1;
        }
        if pr > 0 && pc + 1 < ncols && self.rows[pr - 1][pc + 1].status == Status::Mine {
            nb_mines = nb_mines + 1;
        }
        if pr + 1 < nrows && self.rows[pr + 1][pc].status == Status::Mine {
            nb_mines = nb_mines + 1;
        }
        if pr + 1 < nrows && pc + 1 < ncols && self.rows[pr + 1][pc + 1].status == Status::Mine {
            nb_mines = nb_mines + 1;
        }
        nb_mines
    }

    /// Modifies the grid to randomly add mines to it: for every cell, one
    /// uniform draw in 1..=100; on a draw of at most 5 (the standard mine
    /// rate, as a percentage) the cell's status becomes `Mine`, otherwise the
    /// cell is left as it was. The discovered flag is never touched.
    fn generate_mines(&mut self)
        requires
            old(self).wf(),
        ensures
            final(self).wf(),
            final(self).spec_dims() == old(self).spec_dims(),
            forall|r: int, c: int|
                0 <= r < old(self).spec_dims().0 && 0 <= c < old(self).spec_dims().1
                    ==> (#[trigger] final(self).rows_seq()[r][c]) == old(self).rows_seq()[r][c]
                    || final(self).rows_seq()[r][c] == (Cell {
                    status: Status::Mine,
                    discovered: old(self).rows_seq()[r][c].discovered,
                }),
    {
        let (nrows, ncols) = self.dimensions;
        let mut new_rows: Vec<Vec<Cell>> = Vec::new();
        for r in 0..nrows
            invariant
                *self == *old(self),
                self.wf(),
                self.spec_dims() == (nrows, ncols),
                new_rows@.len() == r,
                forall|i: int| 0 <= i < r ==> (#[trigger] new_rows@[i]@).len() == ncols,
                forall|i: int, j: int|
                    0 <= i < r && 0 <= j < ncols ==> (#[trigger] new_rows@[i]@[j])
                        == self.rows_seq()[i][j] || new_rows@[i]@[j] == (Cell {
                        status: Status::Mine,
                        discovered: self.rows_seq()[i][j].discovered,
                    }),
        {
            let mut row: Vec<Cell> = Vec::new();
            proof {
                assert(self.rows_seq()[r as int] == self.rows@[r as int]@);
            }
            for c in 0..ncols
                invariant
                    *self == *old(self),
                    self.wf(),
                    self.spec_dims() == (nrows, ncols),
                    r < nrows,
                    row@.len() == c,
                    forall|j: int|
                        0 <= j < c ==> (#[trigger] row@[j]) == self.rows_seq()[r as int][j]
                            || row@[j] == (Cell {
                            status: Status::Mine,
                            discovered: self.rows_seq()[r as int][j].discovered,
                        }),
            {
                proof {
                    assert(self.rows_seq()[r as int] == self.rows@[r as int]@);
                }
                let old_cell = self.rows[r][c];
                let draw = draw_percentile();
                if draw <= 5 {
                    row.push(Cell { status: Status::Mine, discovered: old_cell.discovered });
                } else {
                    row.push(old_cell);
                }
            }
            new_rows.push(row);
        }
        self.rows = new_rows;
        proof {
            assert forall|i: int| 0 <= i < self.rows_seq().len() implies (
            #[trigger] self.rows_seq()[i]).len() == ncols by {
                assert(self.rows_seq()[i] == new_rows@[i]@);
            }
            assert forall|r: int, c: int|
                0 <= r < nrows && 0 <= c < ncols implies (#[trigger] self.rows_seq()[r][c]) == old(
                self,
            ).rows_seq()[r][c] || self.rows_seq()[r][c] == (Cell {
                status: Status::Mine,
                discovered: old(self).rows_seq()[r][c].discovered,
            }) by {
                assert(self.rows_seq()[r] == new_rows@[r]@);
            }
        }
    }

    /// Replaces each cell which is not a mine and that has a mine next to it
    /// with the status `NearMine(n)`, with `n` the number of mines around it.
    /// A mine cell's status is never overwritten, and a cell with zero
    /// adjacent mines stays empty.
    pub fn generate_hints(&mut self)
        requires
            old(self).wf(),
        ensures
            final(self).wf(),
            final(self).spec_dims() == old(self).spec_dims(),
            forall|r: int, c: int|
                0 <= r < old(self).spec_dims().0 && 0 <= c < old(self).spec_dims().1
                    ==> (#[trigger] final(self).rows_seq()[r][c]) == hinted_cell(
                    old(self).rows_seq(),
                    old(self).spec_dims(),
                    r,
                    c,
                ),
            forall|r: int, c: int|
                0 <= r < old(self).spec_dims().0 && 0 <= c < old(self).spec_dims().1 && old(
                    self,
                ).rows_seq()[r][c].status == Status::Mine
                    ==> (#[trigger] final(self).rows_seq()[r][c]).status == Status::Mine,
    {
        let (nrows, ncols) = self.dimensions;
        let mut new_rows: Vec<Vec<Cell>> = Vec::new();
        for r in 0..nrows
            invariant
                *self == *old(self),
                self.wf(),
                self.spec_dims() == (nrows, ncols),
                new_rows@.len() == r,
                forall|i: int| 0 <= i < r ==> (#[trigger] new_rows@[i]@).len() == ncols,
                forall|i: int, j: int|
                    0 <= i < r && 0 <= j < ncols ==> (#[trigger] new_rows@[i]@[j]) == hinted_cell(
                        self.rows_seq(),
                        self.spec_dims(),
                        i,
                        j,
                    ),
        {
            let mut row: Vec<Cell> = Vec::new();
            for c in 0..ncols
                invariant
                    *self == *old(self),
                    self.wf(),
                    self.spec_dims() == (nrows, ncols),
                    r < nrows,
                    row@.len() == c,
                    forall|j: int|
                        0 <= j < c ==> (#[trigger] row@[j]) == hinted_cell(
                            self.rows_seq(),
                            self.spec_dims(),
                            r as int,
                            j,
                        ),
            {
                let nb_mines = self.count_near_mines((r, c));
                proof {
                    assert(self.rows_seq()[r as int] == self.rows@[r as int]@);
                }
                let old_cell = self.rows[r][c];
                if nb_mines > 0 && old_cell.status != Status::Mine {
                    row.push(
                        Cell { status: Status::NearMine(nb_mines), discovered: old_cell.discovered },
                    );
                } else {
                    row.push(old_cell);
                }
            }
            new_rows.push(row);
        }
        self.rows = new_rows;
        proof {
            assert forall|i: int| 0 <= i < self.rows_seq().len() implies (
            #[trigger] self.rows_seq()[i]).len() == ncols by {
                assert(self.rows_seq()[i] == new_rows@[i]@);
            }
            assert forall|r: int, c: int|
                0 <= r < nrows && 0 <= c < ncols implies (#[trigger] self.rows_seq()[r][c])
                == hinted_cell(old(self).rows_seq(), old(self).spec_dims(), r, c) by {
                assert(self.rows_seq()[r] == new_rows@[r]@);
            }
        }
    }

    /// Returns the standard 10x10 grid randomly filled with mines and the
    /// corresponding hints: every cell of the result is undiscovered, its
    /// hints carry counts in 1..=8, and the whole grid equals the hint
    /// derivation of its own mine layout (so every hint is consistent with
    /// the mines actually placed around it).
    pub fn make_random() -> (g: Grid)
        ensures
            g.wf(),
            g.spec_dims() == (10usize, 10usize),
            forall|r: int, c: int|
                0 <= r < 10 && 0 <= c < 10 ==> (#[trigger] g.rows_seq()[r][c]) == hinted_cell(
                    mine_mask(g.rows_seq()),
                    g.spec_dims(),
                    r,
                    c,
                ),
            forall|r: int, c: int|
                0 <= r < 10 && 0 <= c < 10 ==> !(#[trigger] g.rows_seq()[r][c]).discovered,
            forall|r: int, c: int|
                0 <= r < 10 && 0 <= c < 10 ==> hint_in_range(
                    (#[trigger] g.rows_seq()[r][c]).status,
                ),
    {
        let mut grid = Grid::make_empty(10, 10);
        grid.generate_mines();
        let ghost mined = grid.rows_seq();
        proof {
            assert forall|r: int, c: int| 0 <= r < 10 && 0 <= c < 10 implies !(
            #[trigger] mined[r][c]).discovered && (mined[r][c].status == Status::Empty
                || mined[r][c].status == Status::Mine) by {}
        }
        grid.generate_hints();
        proof {
            let rows = grid.rows_seq();
            let masked = mine_mask(rows);
            assert forall|r: int, c: int| 0 <= r < 10 && 0 <= c < 10 implies (
            #[trigger] masked[r][c]) == mined[r][c] by {
                assert(masked[r] == rows[r].map_values(|cl: Cell| mine_mask_cell(cl)));
                assert(rows[r][c] == hinted_cell(mined, (10usize, 10usize), r, c));
            }
            assert forall|r: int| 0 <= r < 10 implies masked[r] =~= mined[r] by {
                assert(masked[r] == rows[r].map_values(|cl: Cell| mine_mask_cell(cl)));
            }
            assert(masked =~= mined);
            assert forall|r: int, c: int| 0 <= r < 10 && 0 <= c < 10 implies hint_in_range(
                (#[trigger] rows[r][c]).status,
            ) by {
                assert(rows[r][c] == hinted_cell(mined, (10usize, 10usize), r, c));
            }
        }
        grid
    }
}

impl PartialEq for Grid {
    /// Structural equality: equal dimensions and element-wise equal cells
    /// (status and discovered flag both compared).
    fn eq(&self, other: &Grid) -> (r: bool) {
        if self.dimensions.0 != other.dimensions.0 || self.dimensions.1 != other.dimensions.1 {
            return false;
        }
        if self.rows.len() != other.rows.len() {
            proof {
                assert(self.rows_seq().len() != other.rows_seq().len());
            }
            return false;
        }
        let n = self.rows.len();
        for i in 0..n
            invariant
                n == self.rows@.len(),
                n == other.rows@.len(),
                forall|k: int|
                    0 <= k < i ==> (#[trigger] self.rows_seq()[k]) == other.rows_seq()[k],
        {
            let a_len = self.rows[i].len();
            let b_len = other.rows[i].len();
            proof {
                assert(self.rows_seq()[i as int] == self.rows@[i as int]@);
                assert(other.rows_seq()[i as int] == other.rows@[i as int]@);
            }
            if a_len != b_len {
                proof {
                    assert(self.rows_seq()[i as int].len() != other.rows_seq()[i as int].len());
                    }
                return false;
            }
            for j in 0..a_len
                invariant
                    i < n,
                    n == self.rows@.len(),
                    n == other.rows@.len(),
                    a_len == self.rows@[i as int]@.len(),
                    a_len == other.rows@[i as int]@.len(),
                    forall|k: int|
                        0 <= k < j ==> (#[trigger] self.rows@[i as int]@[k]) == other.rows@[
                            i as int
                        ]@[k],
            {
                if self.rows[i][j] != other.rows[i][j] {
                    proof {
                        assert(self.rows_seq()[i as int][j as int] != other.rows_seq()[i as int][
                            j as int
                        ]);
                            }
                    return false;
                }
            }
            proof {
                assert(self.rows_seq()[i as int] =~= other.rows_seq()[i as int]);
            }
        }
        proof {
            assert(self.rows_seq() =~~= other.rows_seq());
        }
        true
    }
}

impl vstd::std_specs::cmp::PartialEqSpecImpl for Grid {
    open spec fn obeys_eq_spec() -> bool {
        true
    }

    open spec fn eq_spec(&self, other: &Grid) -> bool {
        self.spec_dims() == other.spec_dims() && self.rows_seq() =~~= other.rows_seq()
    }
}

/// Relies on `rand::thread_rng` and `rand::Rng::gen_range(1..=100)`: a draw
/// from a thread-local generator, uniform over the given non-empty inclusive
/// range, so the result always lies in 1..=100. Nothing more is assumed of
/// any single draw.
#[verifier::external_body]
fn draw_percentile() -> (r: i32)
    ensures
        1 <= r <= 100,
{
    rand::Rng::gen_range(&mut rand::thread_rng(), 1..=100)
}

} // verus!
