//! The textual "debug format" of a grid: `*` for an empty cell, `X` for a
//! mine, a digit for a hint, a newline to close a row. Decoding is lenient
//! (any unrecognized character becomes an empty cell, blank lines are
//! skipped); encoding joins the rows with newlines and never emits a
//! trailing newline.

use vstd::prelude::*;
use vstd::string::StrSliceExecFns;
use vstd::string::StringExecFns;

use crate::cell::Cell;
use crate::cell::Status;
use crate::grid::Grid;

verus! {

/// The status a single character decodes to: `X` is a mine, a digit 1-8 is
/// a hint, and everything else (including `*`, by design) is an empty cell.
pub open spec fn decoded_status(c: char) -> Status {
    if c == 'X' {
        Status::Mine
    } else if c == '1' {
        Status::NearMine(1)
    } else if c == '2' {
        Status::NearMine(2)
    } else if c == '3' {
        Status::NearMine(3)
    } else if c == '4' {
        Status::NearMine(4)
    } else if c == '5' {
        Status::NearMine(5)
    } else if c == '6' {
        Status::NearMine(6)
    } else if c == '7' {
        Status::NearMine(7)
    } else if c == '8' {
        Status::NearMine(8)
    } else {
        Status::Empty
    }
}

/// The cell a single (non-newline) character decodes to: always undiscovered.
pub open spec fn decoded_cell(c: char) -> Cell {
    Cell { status: decoded_status(c), discovered: false }
}

/// The decoder's state while scanning: the rows closed so far, the cells of
/// the row being built, and the widest row length seen at a row terminator.
pub struct DecodeState {
    /// Rows already closed by a newline.
    pub rows: Seq<Seq<Cell>>,
    /// The cells of the row currently being built.
    pub cur: Seq<Cell>,
    /// The column-count high-water mark recorded at row terminators.
    pub width: nat,
}

/// The state the decoder starts from: nothing read yet.
pub open spec fn init_state() -> DecodeState {
    DecodeState { rows: Seq::empty(), cur: Seq::empty(), width: 0 }
}

/// One decoding step. A newline records the current row length as a width
/// candidate and, if the row is non-empty, closes it; an empty row at a
/// newline is a bare separator and emits no row. Any other character appends
/// its cell to the current row.
pub open spec fn decode_step(st: DecodeState, c: char) -> DecodeState {
    if c == '\n' {
        let w = if st.cur.len() > st.width {
            st.cur.len()
        } else {
            st.width
        };
        if st.cur.len() > 0 {
            DecodeState { rows: st.rows.push(st.cur), cur: Seq::empty(), width: w }
        } else {
            DecodeState { rows: st.rows, cur: st.cur, width: w }
        }
    } else {
        DecodeState { rows: st.rows, cur: st.cur.push(decoded_cell(c)), width: st.width }
    }
}

/// The decoder's state after scanning all of `s`, left to right, from `st`.
pub open spec fn decode_run(st: DecodeState, s: Seq<char>) -> DecodeState
    decreases s.len(),
{
    if s.len() == 0 {
        st
    } else {
        decode_run(decode_step(st, s[0]), s.drop_first())
    }
}

/// The rows of the grid `s` decodes to: the closed rows, plus the final row
/// flushed if the text did not end with a newline.
pub open spec fn decoded_rows(s: Seq<char>) -> Seq<Seq<Cell>> {
    let st = decode_run(init_state(), s);
    if st.cur.len() > 0 {
        st.rows.push(st.cur)
    } else {
        st.rows
    }
}

/// The column count of the grid `s` decodes to: the widest row length seen
/// at a row terminator (a final row without its newline is flushed but does
/// not raise this mark).
pub open spec fn decoded_width(s: Seq<char>) -> nat {
    decode_run(init_state(), s).width
}

/// Scanning one more character is one more step.
pub proof fn lemma_decode_run_push(st: DecodeState, s: Seq<char>, c: char)
    ensures
        decode_run(st, s.push(c)) == decode_step(decode_run(st, s), c),
    decreases s.len(),
{
    let p = s.push(c);
    if s.len() == 0 {
        assert(p[0] == c);
        assert(p.drop_first() =~= Seq::<char>::empty());
        assert(decode_run(st, p) == decode_run(decode_step(st, c), p.drop_first()));
        assert(decode_run(decode_step(st, c), p.drop_first()) == decode_step(st, c));
        assert(decode_run(st, s) == st);
    } else {
        assert(p[0] == s[0]);
        assert(p.drop_first() =~= s.drop_first().push(c));
        assert(decode_run(st, p) == decode_run(decode_step(st, s[0]), s.drop_first().push(c)));
        lemma_decode_run_push(decode_step(st, s[0]), s.drop_first(), c);
        assert(decode_run(st, s) == decode_run(decode_step(st, s[0]), s.drop_first()));
    }
}

/// Scanning a concatenation scans its parts in order.
pub proof fn lemma_decode_run_concat(st: DecodeState, a: Seq<char>, b: Seq<char>)
    ensures
        decode_run(st, a + b) == decode_run(decode_run(st, a), b),
    decreases a.len(),
{
    if a.len() == 0 {
        assert(a + b =~= b);
    } else {
        assert((a + b)[0] == a[0]);
        assert((a + b).drop_first() =~= a.drop_first() + b);
        lemma_decode_run_concat(decode_step(st, a[0]), a.drop_first(), b);
    }
}

/// The character a status encodes to: `*` for empty, `X` for a mine, the
/// decimal digit for a hint in 1..=9, and the `?` sentinel for a hint
/// outside that range (which hint derivation never produces).
pub open spec fn encoded_status(s: Status) -> char {
    match s {
        Status::Empty => '*',
        Status::Mine => 'X',
        Status::NearMine(k) => hint_char(k),
    }
}

/// The character a hint count encodes to: its decimal digit for 1..=9, the
/// `?` sentinel otherwise.
pub open spec fn hint_char(k: u8) -> char {
    if k == 1 {
        '1'
    } else if k == 2 {
        '2'
    } else if k == 3 {
        '3'
    } else if k == 4 {
        '4'
    } else if k == 5 {
        '5'
    } else if k == 6 {
        '6'
    } else if k == 7 {
        '7'
    } else if k == 8 {
        '8'
    } else if k == 9 {
        '9'
    } else {
        '?'
    }
}

/// One row of cells as its line of characters, without a terminator.
pub open spec fn encoded_row(row: Seq<Cell>) -> Seq<char> {
    Seq::new(row.len(), |i: int| encoded_status(row[i].status))
}

/// Rows encoded with a newline after every row (the shape of all rows but
/// the last in the debug format).
pub open spec fn encoded_rows_terminated(rows: Seq<Seq<Cell>>) -> Seq<char>
    decreases rows.len(),
{
    if rows.len() == 0 {
        Seq::empty()
    } else {
        encoded_row(rows[0]).push('\n') + encoded_rows_terminated(rows.drop_first())
    }
}

/// A whole grid in the debug format: the rows joined by newlines, with no
/// trailing newline after the last row.
pub open spec fn encoded_grid(rows: Seq<Seq<Cell>>) -> Seq<char> {
    if rows.len() == 0 {
        Seq::empty()
    } else {
        encoded_rows_terminated(rows.drop_last()) + encoded_row(rows.last())
    }
}

/// Terminated encoding grows row by row at the back.
pub proof fn lemma_encoded_rows_terminated_push(rows: Seq<Seq<Cell>>, row: Seq<Cell>)
    ensures
        encoded_rows_terminated(rows.push(row)) == encoded_rows_terminated(rows) + encoded_row(
            row,
        ).push('\n'),
    decreases rows.len(),
{
    let p = rows.push(row);
    if rows.len() == 0 {
        assert(p[0] == row);
        assert(p.drop_first() =~= Seq::<Seq<Cell>>::empty());
        assert(encoded_rows_terminated(p) == encoded_row(row).push('\n') + encoded_rows_terminated(
            p.drop_first(),
        ));
        assert(encoded_rows_terminated(p.drop_first()) == Seq::<char>::empty());
        assert(encoded_rows_terminated(rows) == Seq::<char>::empty());
        assert(encoded_rows_terminated(p) =~= encoded_rows_terminated(rows) + encoded_row(
            row,
        ).push('\n'));
    } else {
        assert(p[0] == rows[0]);
        assert(p.drop_first() =~= rows.drop_first().push(row));
        assert(encoded_rows_terminated(p) == encoded_row(rows[0]).push('\n')
            + encoded_rows_terminated(rows.drop_first().push(row)));
        lemma_encoded_rows_terminated_push(rows.drop_first(), row);
        assert(encoded_rows_terminated(rows) == encoded_row(rows[0]).push('\n')
            + encoded_rows_terminated(rows.drop_first()));
        assert(encoded_rows_terminated(p) =~= encoded_rows_terminated(rows) + encoded_row(
            row,
        ).push('\n'));
    }
}

/// Pushes the decimal digit for a hint count in 1..=9, or the `?` sentinel
/// for a count outside that range, onto `out`.
pub(crate) fn push_hint_char(out: &mut String, k: u8)
    ensures
        final(out)@ == old(out)@.push(hint_char(k)),
{
    proof {
        reveal_strlit("1");
        reveal_strlit("2");
        reveal_strlit("3");
        reveal_strlit("4");
        reveal_strlit("5");
        reveal_strlit("6");
        reveal_strlit("7");
        reveal_strlit("8");
        reveal_strlit("9");
        reveal_strlit("?");
    }
    if k == 1 {
        out.append("1");
    } else if k == 2 {
        out.append("2");
    } else if k == 3 {
        out.append("3");
    } else if k == 4 {
        out.append("4");
    } else if k == 5 {
        out.append("5");
    } else if k == 6 {
        out.append("6");
    } else if k == 7 {
        out.append("7");
    } else if k == 8 {
        out.append("8");
    } else if k == 9 {
        out.append("9");
    } else {
        out.append("?");
    }
    proof {
        assert(out@ =~= old(out)@.push(hint_char(k)));
    }
}

impl Grid {
    /// Returns the grid a debug string decodes to. Never fails: unknown
    /// characters degrade to empty cells, blank lines are skipped, and a
    /// final row without a trailing newline is still flushed.
    pub fn from_debug_str(s: &str) -> (g: Grid)
        ensures
            g.rows_seq() == decoded_rows(s@),
            g.spec_dims().0 == decoded_rows(s@).len(),
            g.spec_dims().1 == decoded_width(s@),
    {
        let n = s.unicode_len();
        let mut rows: Vec<Vec<Cell>> = Vec::new();
        let mut row: Vec<Cell> = Vec::new();
        let mut width: usize = 0;
        let mut i: usize = 0;
        while i < n
            invariant
                i <= n,
                n == s@.len(),
                ({
                    let st = decode_run(init_state(), s@.take(i as int));
                    &&& rows@.len() == st.rows.len()
                    &&& (forall|k: int|
                        0 <= k < rows@.len() ==> (#[trigger] rows@[k]@) == st.rows[k])
                    &&& row@ == st.cur
                    &&& width as nat == st.width
                }),
            decreases n - i,
        {
            proof {
                assert(s@.take(i as int + 1) =~= s@.take(i as int).push(s@[i as int]));
                lemma_decode_run_push(init_state(), s@.take(i as int), s@[i as int]);
            }
            let c = s.get_char(i);
            if c == '\n' {
                if row.len() > width {
                    width = row.len();
                }
                if row.len() > 0 {
                    rows.push(row);
                    row = Vec::new();
                }
            } else if c == 'X' {
                row.push(Cell { status: Status::Mine, discovered: false });
            } else if c == '1' {
                row.push(Cell { status: Status::NearMine(1), discovered: false });
            } else if c == '2' {
                row.push(Cell { status: Status::NearMine(2), discovered: false });
            } else if c == '3' {
                row.push(Cell { status: Status::NearMine(3), discovered: false });
            } else if c == '4' {
                row.push(Cell { status: Status::NearMine(4), discovered: false });
            } else if c == '5' {
                row.push(Cell { status: Status::NearMine(5), discovered: false });
            } else if c == '6' {
                row.push(Cell { status: Status::NearMine(6), discovered: false });
            } else if c == '7' {
                row.push(Cell { status: Status::NearMine(7), discovered: false });
            } else if c == '8' {
                row.push(Cell { status: Status::NearMine(8), discovered: false });
            } else {
                row.push(Cell { status: Status::Empty, discovered: false });
            }
            i = i + 1;
        }
        proof {
            assert(s@.take(n as int) =~= s@);
        }
        if row.len() > 0 {
            rows.push(row);
        }
        let nrows = rows.len();
        let g = Grid { dimensions: (nrows, width), rows };
        proof {
            assert forall|k: int| 0 <= k < g.rows_seq().len() implies (#[trigger] g.rows_seq()[k])
                == decoded_rows(s@)[k] by {
                assert(g.rows_seq()[k] == g.rows@[k]@);
            }
            assert(g.rows_seq() =~= decoded_rows(s@));
        }
        g
    }

    /// Returns the grid in the minesweeper debug string format: rows joined
    /// by newlines, no trailing newline.
    pub fn to_debug_str(&self) -> (s: String)
        requires
            self.rows_seq().len() == self.spec_dims().0,
        ensures
            s@ == encoded_grid(self.rows_seq()),
    {
        let mut out = String::new();
        let nrows = self.dimensions.0;
        proof {
            assert(self.rows_seq().take(0) =~= Seq::<Seq<Cell>>::empty());
            assert(encoded_rows_terminated(Seq::<Seq<Cell>>::empty()) == Seq::<char>::empty());
        }
        for x in 0..nrows
            invariant
                self.rows_seq().len() == nrows,
                self.spec_dims().0 == nrows,
                x == 0 ==> out@ == Seq::<char>::empty(),
                x < nrows ==> out@ == encoded_rows_terminated(self.rows_seq().take(x as int)),
                x == nrows && nrows > 0 ==> out@ == encoded_rows_terminated(
                    self.rows_seq().take(x as int - 1),
                ) + encoded_row(self.rows_seq()[x as int - 1]),
        {
            proof {
                assert(self.rows_seq()[x as int] == self.rows@[x as int]@);
            }
            let row_len = self.rows[x].len();
            let ghost row_seq = self.rows_seq()[x as int];
            let ghost base = out@;
            for y in 0..row_len
                invariant
                    row_seq == self.rows_seq()[x as int],
                    x < nrows,
                    nrows == self.rows_seq().len(),
                    row_seq == self.rows@[x as int]@,
                    row_len == row_seq.len(),
                    out@ == base + encoded_row(row_seq).take(y as int),
            {
                let cell = self.rows[x][y];
                match cell.status {
                    Status::Empty => {
                        proof {
                            reveal_strlit("*");
                        }
                        out.append("*");
                    },
                    Status::Mine => {
                        proof {
                            reveal_strlit("X");
                        }
                        out.append("X");
                    },
                    Status::NearMine(k) => {
                        push_hint_char(&mut out, k);
                    },
                }
                proof {
                    assert(encoded_row(row_seq)[y as int] == encoded_status(cell.status));
                    assert(out@ =~= base + encoded_row(row_seq).take(y as int + 1));
                }
            }
            proof {
                assert(encoded_row(row_seq).take(row_len as int) =~= encoded_row(row_seq));
            }
            if x != nrows - 1 {
                proof {
                    reveal_strlit("\n");
                }
                out.append("\n");
                proof {
                    lemma_encoded_rows_terminated_push(
                        self.rows_seq().take(x as int),
                        row_seq,
                    );
                    assert(self.rows_seq().take(x as int).push(row_seq) =~= self.rows_seq().take(
                        x as int + 1,
                    ));
                    assert(out@ =~= encoded_rows_terminated(self.rows_seq().take(x as int + 1)));
                }
            }
        }
        proof {
            if nrows > 0 {
                assert(self.rows_seq().take(nrows as int - 1) =~= self.rows_seq().drop_last());
                assert(self.rows_seq()[nrows as int - 1] == self.rows_seq().last());
            } else {
                assert(out@ =~= encoded_grid(self.rows_seq()));
            }
        }
        out
    }
}

} // verus!
