//! The laws that tie the grid's operations together: the encode/decode
//! round trip, the decoder's indifference to extra blank lines, and the
//! all-masked shape of the revealed display of an undiscovered grid.

use vstd::prelude::*;

use crate::cell::Cell;
use crate::codec::decode_run;
use crate::codec::decode_step;
use crate::codec::decoded_cell;
use crate::codec::decoded_rows;
use crate::codec::decoded_width;
use crate::codec::encoded_grid;
use crate::codec::encoded_row;
use crate::codec::encoded_rows_terminated;
use crate::codec::encoded_status;
use crate::codec::init_state;
use crate::codec::lemma_decode_run_concat;
use crate::codec::lemma_decode_run_push;
use crate::codec::lemma_encoded_rows_terminated_push;
use crate::codec::DecodeState;
use crate::grid::hint_in_range;
use crate::grid::Grid;
use crate::render::rendered_cell;
use crate::render::rendered_grid;
use crate::render::rendered_row;

verus! {

/// True of a cell the debug format represents exactly: undiscovered (the
/// format has no symbol for the discovered flag) and with any hint count in
/// 1..=8 (the decoder reads no other digit back).
pub open spec fn cell_clean(c: Cell) -> bool {
    !c.discovered && hint_in_range(c.status)
}

/// A clean cell's encoding is never a row terminator, and decodes back to
/// the very cell.
proof fn lemma_cell_round_trip(c: Cell)
    requires
        cell_clean(c),
    ensures
        encoded_status(c.status) != '\n',
        decoded_cell(encoded_status(c.status)) == c,
{
}

/// Scanning the encoding of one clean row appends exactly that row's cells
/// to the row being built, and touches nothing else.
proof fn lemma_decode_run_encoded_row(st: DecodeState, row: Seq<Cell>)
    requires
        forall|j: int| 0 <= j < row.len() ==> cell_clean(#[trigger] row[j]),
    ensures
        decode_run(st, encoded_row(row)) == (DecodeState {
            rows: st.rows,
            cur: st.cur + row,
            width: st.width,
        }),
    decreases row.len(),
{
    if row.len() == 0 {
        assert(encoded_row(row) =~= Seq::<char>::empty());
        assert(st.cur + row =~= st.cur);
        assert(decode_run(st, encoded_row(row)) =~= (DecodeState {
            rows: st.rows,
            cur: st.cur + row,
            width: st.width,
        }));
    } else {
        let head = row.drop_last();
        let last = row.last();
        assert(encoded_row(row) =~= encoded_row(head).push(encoded_status(last.status)));
        lemma_decode_run_push(st, encoded_row(head), encoded_status(last.status));
        lemma_decode_run_encoded_row(st, head);
        lemma_cell_round_trip(last);
        assert((st.cur + head).push(last) =~= st.cur + row);
    }
}

/// Scanning a block of newline-terminated clean rows, all of one width `w`
/// of at least 1, from a state with an empty row buffer, closes exactly
/// those rows and raises the width mark to `w`.
proof fn lemma_decode_run_terminated_rows(st: DecodeState, rows: Seq<Seq<Cell>>, w: int)
    requires
        st.cur.len() == 0,
        1 <= w,
        forall|i: int| 0 <= i < rows.len() ==> (#[trigger] rows[i]).len() == w,
        forall|i: int, j: int|
            0 <= i < rows.len() && 0 <= j < w ==> cell_clean(#[trigger] rows[i][j]),
    ensures
        decode_run(st, encoded_rows_terminated(rows)) == (DecodeState {
            rows: st.rows + rows,
            cur: Seq::empty(),
            width: if rows.len() > 0 {
                if w > st.width {
                    w as nat
                } else {
                    st.width
                }
            } else {
                st.width
            },
        }),
    decreases rows.len(),
{
    if rows.len() == 0 {
        assert(encoded_rows_terminated(rows) == Seq::<char>::empty());
        assert(st.rows + rows =~= st.rows);
        assert(st.cur =~= Seq::<Cell>::empty());
        assert(decode_run(st, encoded_rows_terminated(rows)) =~= (DecodeState {
            rows: st.rows + rows,
            cur: Seq::empty(),
            width: st.width,
        }));
    } else {
        let head = rows.drop_last();
        let last = rows.last();
        assert(rows =~= head.push(last));
        lemma_encoded_rows_terminated_push(head, last);
        lemma_decode_run_terminated_rows(st, head, w);
        let st1 = decode_run(st, encoded_rows_terminated(head));
        lemma_decode_run_concat(st, encoded_rows_terminated(head), encoded_row(last).push('\n'));
        lemma_decode_run_push(st1, encoded_row(last), '\n');
        assert(forall|j: int| 0 <= j < last.len() ==> cell_clean(#[trigger] last[j]));
        lemma_decode_run_encoded_row(st1, last);
        let st2 = decode_run(st1, encoded_row(last));
        assert(st2.cur =~= last);
        assert(st2.cur.len() == w);
        assert(decode_step(st2, '\n').rows =~= st.rows + rows);
        assert(decode_step(st2, '\n').cur =~= Seq::<Cell>::empty());
    }
}

/// The round-trip law: a grid of at least two rows and at least one column
/// (or the empty grid), whose every cell the debug format represents exactly
/// (no discovered cells, no hint outside 1..=8), decodes from its own
/// encoding unchanged — same rows, same dimensions.
///
/// The bounds are where the law genuinely stops: the final row is encoded
/// without a trailing newline, so its length never raises the decoder's
/// column-count mark, and a one-row grid (or a grid of empty rows) comes
/// back with a different recorded width.
pub proof fn lemma_round_trip(g: Grid)
    requires
        g.wf(),
        (g.spec_dims().0 >= 2 && g.spec_dims().1 >= 1) || g.spec_dims() == (0usize, 0usize),
        forall|r: int, c: int|
            0 <= r < g.spec_dims().0 && 0 <= c < g.spec_dims().1 ==> cell_clean(
                #[trigger] g.rows_seq()[r][c],
            ),
    ensures
        decoded_rows(encoded_grid(g.rows_seq())) == g.rows_seq(),
        decoded_rows(encoded_grid(g.rows_seq())).len() == g.spec_dims().0,
        decoded_width(encoded_grid(g.rows_seq())) == g.spec_dims().1,
{
    let rows = g.rows_seq();
    let n = g.spec_dims().0 as int;
    let w = g.spec_dims().1 as int;
    if n == 0 {
        assert(rows.len() == 0);
        assert(encoded_grid(rows) == Seq::<char>::empty());
        assert(decode_run(init_state(), encoded_grid(rows)) == init_state());
        assert(decoded_rows(encoded_grid(rows)) =~= rows);
    } else {
        lemma_round_trip_nonempty(g);
    }
}

/// The round-trip law on a grid of at least two rows and at least one
/// column: the induction over the encoded text.
proof fn lemma_round_trip_nonempty(g: Grid)
    requires
        g.wf(),
        g.spec_dims().0 >= 2,
        g.spec_dims().1 >= 1,
        forall|r: int, c: int|
            0 <= r < g.spec_dims().0 && 0 <= c < g.spec_dims().1 ==> cell_clean(
                #[trigger] g.rows_seq()[r][c],
            ),
    ensures
        decoded_rows(encoded_grid(g.rows_seq())) == g.rows_seq(),
        decoded_width(encoded_grid(g.rows_seq())) == g.spec_dims().1,
{
    let rows = g.rows_seq();
    let n = g.spec_dims().0 as int;
    let w = g.spec_dims().1 as int;
    let head = rows.drop_last();
    let last = rows.last();
    let enc = encoded_grid(rows);
    assert(enc == encoded_rows_terminated(head) + encoded_row(last));
    lemma_decode_run_concat(init_state(), encoded_rows_terminated(head), encoded_row(last));
    assert(forall|i: int, j: int|
        0 <= i < head.len() && 0 <= j < w ==> cell_clean(#[trigger] head[i][j]));
    lemma_decode_run_terminated_rows(init_state(), head, w);
    let st1 = decode_run(init_state(), encoded_rows_terminated(head));
    assert(st1.rows =~= head);
    assert(forall|j: int| 0 <= j < last.len() ==> cell_clean(#[trigger] last[j]));
    lemma_decode_run_encoded_row(st1, last);
    let st2 = decode_run(init_state(), enc);
    assert(st2.cur =~= last);
    assert(st2.cur.len() == w);
    assert(decoded_rows(enc) =~= head.push(last));
    assert(head.push(last) =~= rows);
}

/// A trailing blank line changes nothing: text that already ends with a
/// newline decodes to the same grid when one more newline follows it.
pub proof fn lemma_decode_trailing_blank_line(s: Seq<char>)
    requires
        s.len() > 0,
        s.last() == '\n',
    ensures
        decoded_rows(s.push('\n')) == decoded_rows(s),
        decoded_width(s.push('\n')) == decoded_width(s),
{
    assert(s.drop_last().push('\n') =~= s);
    lemma_decode_run_push(init_state(), s.drop_last(), '\n');
    let st = decode_run(init_state(), s);
    assert(st.cur.len() == 0);
    lemma_decode_run_push(init_state(), s, '\n');
    assert(decode_step(st, '\n') =~= st);
}

/// Consecutive newlines collapse: a doubled row terminator decodes to the
/// same grid as a single one, wherever it stands in the text.
pub proof fn lemma_decode_consecutive_newlines(a: Seq<char>, b: Seq<char>)
    ensures
        decoded_rows(a + seq!['\n', '\n'] + b) == decoded_rows(a + seq!['\n'] + b),
        decoded_width(a + seq!['\n', '\n'] + b) == decoded_width(a + seq!['\n'] + b),
{
    let st = decode_run(init_state(), a);
    lemma_decode_run_concat(init_state(), a + seq!['\n', '\n'], b);
    lemma_decode_run_concat(init_state(), a, seq!['\n', '\n']);
    lemma_decode_run_concat(init_state(), a + seq!['\n'], b);
    lemma_decode_run_concat(init_state(), a, seq!['\n']);
    let two = seq!['\n', '\n'];
    let one = seq!['\n'];
    let st1 = decode_step(st, '\n');
    assert(two[0] == '\n');
    assert(two.drop_first() =~= one);
    assert(one[0] == '\n');
    assert(one.drop_first() =~= Seq::<char>::empty());
    assert(decode_run(st, two) == decode_run(st1, one));
    assert(decode_run(st1, one) == decode_run(decode_step(st1, '\n'), Seq::<char>::empty()));
    assert(decode_run(st, one) == decode_run(st1, Seq::<char>::empty()));
    assert(decode_run(st, two) == decode_step(st1, '\n'));
    assert(decode_run(st, one) == st1);
    assert(st1.cur.len() == 0);
    assert(decode_step(st1, '\n') =~= st1);
}

/// The revealed display of a grid none of whose cells is discovered is a
/// `rows x cols` block of `#`, each row (the last included) closed by a
/// newline: the rendering has length `rows * (cols + 1)`, and the character
/// at any position is `\n` at the end of a row and `#` everywhere else.
pub proof fn lemma_revealed_all_hidden(g: Grid)
    requires
        g.wf(),
        forall|r: int, c: int|
            0 <= r < g.spec_dims().0 && 0 <= c < g.spec_dims().1 ==> !(
            #[trigger] g.rows_seq()[r][c]).discovered,
    ensures
        rendered_grid(g.rows_seq()).len() == g.spec_dims().0 * (g.spec_dims().1 + 1),
        forall|p: int|
            0 <= p < g.spec_dims().0 * (g.spec_dims().1 + 1)
                ==> #[trigger] rendered_grid(g.rows_seq())[p] == (if p % (g.spec_dims().1 + 1)
                == g.spec_dims().1 {
                '\n'
            } else {
                '#'
            }),
{
    lemma_rendered_hidden_block(g.rows_seq(), g.spec_dims().1 as int);
}

/// Induction behind the all-hidden law: rendering rows of one width whose
/// cells are all undiscovered yields `#` everywhere but at the row breaks.
proof fn lemma_rendered_hidden_block(rows: Seq<Seq<Cell>>, w: int)
    requires
        forall|i: int| 0 <= i < rows.len() ==> (#[trigger] rows[i]).len() == w,
        forall|i: int, j: int|
            0 <= i < rows.len() && 0 <= j < w ==> !(#[trigger] rows[i][j]).discovered,
    ensures
        rendered_grid(rows).len() == rows.len() * (w + 1),
        forall|p: int|
            0 <= p < rows.len() * (w + 1) ==> #[trigger] rendered_grid(rows)[p] == (if p % (w + 1)
                == w {
                '\n'
            } else {
                '#'
            }),
    decreases rows.len(),
{
    if rows.len() == 0 {
        assert(rows.len() * (w + 1) == 0);
    } else {
        let tail = rows.drop_first();
        lemma_rendered_hidden_block(tail, w);
        let head_line = rendered_row(rows[0]).push('\n');
        assert(rendered_grid(rows) == head_line + rendered_grid(tail));
        assert(w >= 0);
        assert(head_line.len() == w + 1);
        assert(rows.len() * (w + 1) == tail.len() * (w + 1) + (w + 1)) by (nonlinear_arith)
            requires
                rows.len() == tail.len() + 1,
        ;
        assert forall|p: int| 0 <= p < rows.len() * (w + 1) implies #[trigger] rendered_grid(
            rows,
        )[p] == (if p % (w + 1) == w {
            '\n'
        } else {
            '#'
        }) by {
            if p < w + 1 {
                if p < w {
                    assert(rendered_grid(rows)[p] == rendered_row(rows[0])[p]);
                    assert(rendered_cell(rows[0][p]) == '#');
                    assert(p % (w + 1) == p) by {
                        vstd::arithmetic::div_mod::lemma_small_mod(p as nat, (w + 1) as nat);
                    }
                } else {
                    assert(rendered_grid(rows)[p] == '\n');
                    assert((w + 1) % (w + 1) == 0 && w % (w + 1) == w) by {
                        vstd::arithmetic::div_mod::lemma_mod_self_0(w + 1);
                        vstd::arithmetic::div_mod::lemma_small_mod(w as nat, (w + 1) as nat);
                    }
                }
            } else {
                assert(rendered_grid(rows)[p] == rendered_grid(tail)[p - (w + 1)]);
                assert((p - (w + 1)) % (w + 1) == p % (w + 1)) by {
                    vstd::arithmetic::div_mod::lemma_mod_sub_multiples_vanish(p, w + 1);
                }
            }
        }
    }
}

} // verus!
