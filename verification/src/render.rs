//! The human-facing "revealed" rendering of a grid: an undiscovered cell is
//! masked as `#`; a discovered cell shows a space for empty, `X` for a mine
//! and its digit for a hint. Every row, the last included, ends in a
//! newline. The view is lossy and has no decoder.

use vstd::prelude::*;
use vstd::string::StringExecFns;

use crate::cell::Cell;
use crate::cell::Status;
use crate::codec::hint_char;
use crate::grid::Grid;

verus! {

/// The character one cell is rendered as: `#` while undiscovered; once
/// discovered, a space for an empty cell, `X` for a mine, the decimal digit
/// for a hint in 1..=9 and the `?` sentinel for a hint outside that range.
pub open spec fn rendered_cell(c: Cell) -> char {
    if !c.discovered {
        '#'
    } else {
        match c.status {
            Status::Empty => ' ',
            Status::Mine => 'X',
            Status::NearMine(k) => hint_char(k),
        }
    }
}

/// One row of cells as its rendered line, without the terminator.
pub open spec fn rendered_row(row: Seq<Cell>) -> Seq<char> {
    Seq::new(row.len(), |i: int| rendered_cell(row[i]))
}

/// A whole grid rendered: each row followed by a newline, the last row
/// included.
pub open spec fn rendered_grid(rows: Seq<Seq<Cell>>) -> Seq<char>
    decreases rows.len(),
{
    if rows.len() == 0 {
        Seq::empty()
    } else {
        rendered_row(rows[0]).push('\n') + rendered_grid(rows.drop_first())
    }
}

/// Rendering grows row by row at the back.
pub proof fn lemma_rendered_grid_push(rows: Seq<Seq<Cell>>, row: Seq<Cell>)
    ensures
        rendered_grid(rows.push(row)) == rendered_grid(rows) + rendered_row(row).push('\n'),
    decreases rows.len(),
{
    let p = rows.push(row);
    if rows.len() == 0 {
        assert(p[0] == row);
        assert(p.drop_first() =~= Seq::<Seq<Cell>>::empty());
        assert(rendered_grid(p) == rendered_row(row).push('\n') + rendered_grid(p.drop_first()));
        assert(rendered_grid(p.drop_first()) == Seq::<char>::empty());
        assert(rendered_grid(rows) == Seq::<char>::empty());
        assert(rendered_grid(p) =~= rendered_grid(rows) + rendered_row(row).push('\n'));
    } else {
        assert(p[0] == rows[0]);
        assert(p.drop_first() =~= rows.drop_first().push(row));
        assert(rendered_grid(p) == rendered_row(rows[0]).push('\n') + rendered_grid(
            rows.drop_first().push(row),
        ));
        lemma_rendered_grid_push(rows.drop_first(), row);
        assert(rendered_grid(rows) == rendered_row(rows[0]).push('\n') + rendered_grid(
            rows.drop_first(),
        ));
        assert(rendered_grid(p) =~= rendered_grid(rows) + rendered_row(row).push('\n'));
    }
}

impl Grid {
    /// Returns the revealed display of the grid: every undiscovered cell is
    /// masked as `#`, every discovered cell shows its status, and every row
    /// ends in a newline, the last one included.
    pub fn to_revealed_str(&self) -> (s: String)
        ensures
            s@ == rendered_grid(self.rows_seq()),
    {
        let mut out = String::new();
        let nrows = self.rows.len();
        proof {
            assert(self.rows_seq().take(0) =~= Seq::<Seq<Cell>>::empty());
            assert(rendered_grid(Seq::<Seq<Cell>>::empty()) == Seq::<char>::empty());
        }
        for x in 0..nrows
            invariant
                self.rows_seq().len() == nrows,
                out@ == rendered_grid(self.rows_seq().take(x as int)),
        {
            proof {
                assert(self.rows_seq()[x as int] == self.rows@[x as int]@);
            }
            let row_len = self.rows[x].len();
            let ghost row_seq = self.rows_seq()[x as int];
            let ghost base = out@;
            for y in 0..row_len
                invariant
                    row_seq == self.rows_seq()[x as int],
                    x < nrows,
                    nrows == self.rows_seq().len(),
                    row_seq == self.rows@[x as int]@,
                    row_len == row_seq.len(),
                    out@ == base + rendered_row(row_seq).take(y as int),
            {
                let cell = self.rows[x][y];
                if !cell.discovered {
                    proof {
                        reveal_strlit("#");
                    }
                    out.append("#");
                } else {
                    match cell.status {
                        Status::Empty => {
                            proof {
                                reveal_strlit(" ");
                            }
                            out.append(" ");
                        },
                        Status::Mine => {
                            proof {
                                reveal_strlit("X");
                            }
                            out.append("X");
                        },
                        Status::NearMine(k) => {
                            crate::codec::push_hint_char(&mut out, k);
                        },
                    }
                }
                proof {
                    assert(rendered_row(row_seq)[y as int] == rendered_cell(cell));
                    assert(out@ =~= base + rendered_row(row_seq).take(y as int + 1));
                }
            }
            proof {
                assert(rendered_row(row_seq).take(row_len as int) =~= rendered_row(row_seq));
            }
            proof {
                reveal_strlit("\n");
            }
            out.append("\n");
            proof {
                lemma_rendered_grid_push(self.rows_seq().take(x as int), row_seq);
                assert(self.rows_seq().take(x as int).push(row_seq) =~= self.rows_seq().take(
                    x as int + 1,
                ));
                assert(out@ =~= rendered_grid(self.rows_seq().take(x as int + 1)));
            }
        }
        proof {
            assert(self.rows_seq().take(nrows as int) =~= self.rows_seq());
        }
        out
    }
}

} // verus!
