//! A tick keeps a well-formed board well formed.

use crate::board::{
    after_input, ascending_rows, chosen, cleared, collapsed, counts_after, full_rows, grounded,
    heights_after, heights_of, lemma_after_input, lemma_ascending_gap, lemma_fresh_wf,
    lemma_full_rows, lemma_spawn_anchored, settle_bands, spared, ticked, tops_out, BoardView,
};
use crate::grid::{row_y, PrimitiveBox, COLS, LINES};
use crate::interface::KeyCode;
use crate::laws::counters::lemma_relocated_bounded;
use crate::laws::heights::lemma_heights_of;
use crate::shape::{all_valid, lemma_filter_keeps_valid, lowered, units_above, units_from};
use vstd::prelude::*;

verus! {

/// Units that settle leave every height between zero and the number of
/// rows.
pub proof fn lemma_heights_after_bounded(heights: Seq<i32>, units: Seq<PrimitiveBox>)
    requires
        heights.len() == COLS,
        forall|c: int| 0 <= c < COLS ==> 0 <= #[trigger] heights[c] <= LINES,
        all_valid(units),
    ensures
        heights_after(heights, units).len() == COLS,
        forall|c: int| 0 <= c < COLS ==> 0 <= #[trigger] heights_after(heights, units)[c] <= LINES,
    decreases units.len(),
{
    if units.len() > 0 {
        let rest = units.drop_last();
        assert(units.last().valid());
        assert forall|i: int| 0 <= i < rest.len() implies (#[trigger] rest[i]).valid() by {
            assert(units[i].valid());
        }
        lemma_heights_after_bounded(heights, rest);
    }
}

/// While a heap collapses its units stay on the playfield: nothing falls
/// through the floor.
pub proof fn lemma_settle_bands_valid(
    rest: Seq<PrimitiveBox>,
    fallen: Seq<PrimitiveBox>,
    lines: Seq<usize>,
    from: int,
)
    requires
        ascending_rows(lines),
        0 <= from <= lines.len(),
        all_valid(rest),
        all_valid(fallen),
    ensures
        all_valid(settle_bands(rest, fallen, lines, from)),
    decreases lines.len() - from,
{
    if from >= lines.len() {
        let all = rest + fallen;
        assert forall|i: int| 0 <= i < all.len() implies (#[trigger] all[i]).valid() by {
            if i < rest.len() {
                assert(rest[i].valid());
            } else {
                assert(fallen[i - rest.len()].valid());
            }
        }
    } else {
        let y = row_y(lines[from] as int);
        let stay = units_from(rest, y);
        let band = units_above(rest, y);
        let rows = lines.len() - from;
        lemma_filter_keeps_valid(rest, |u: PrimitiveBox| u.y >= y);
        lemma_filter_keeps_valid(rest, |u: PrimitiveBox| u.y < y);
        lemma_ascending_gap(lines, from, lines.len() - 1);
        let more = fallen + lowered(band, rows);
        assert forall|i: int| 0 <= i < more.len() implies (#[trigger] more[i]).valid() by {
            if i < fallen.len() {
                assert(fallen[i].valid());
            } else {
                let m = i - fallen.len();
                rest.lemma_filter_pred(|u: PrimitiveBox| u.y < y, m);
                assert(band[m].valid());
                assert(band[m].y < y);
            }
        }
        lemma_settle_bands_valid(stay, more, lines, from + 1);
    }
}

/// Clearing rows keeps a board well formed.
pub proof fn lemma_cleared_wf(board: BoardView, lines: Seq<usize>)
    requires
        board.wf(),
        ascending_rows(lines),
    ensures
        cleared(board, lines).wf(),
{
    let units = board.settled.units;
    lemma_filter_keeps_valid(units, spared(lines));
    lemma_settle_bands_valid(units.filter(spared(lines)), Seq::empty(), lines, 0);
    lemma_relocated_bounded(board.line_counts, lines, 0, COLS as int);
    let heap = collapsed(units, lines);
    assert forall|c: int| 0 <= c < COLS implies 0 <= #[trigger] heights_of(heap)[c] <= LINES by {
        lemma_heights_of(heap, c);
    }
}

/// A tick keeps a board well formed, whatever the input and whatever is
/// drawn.
pub proof fn lemma_tick_keeps_wf(board: BoardView, input: Option<KeyCode>, index: int)
    requires
        board.wf(),
    ensures
        ticked(board, input, index).wf(),
{
    let piece = after_input(board.falling, board.heights, input);
    lemma_after_input(board.falling, board.heights, input);
    let moved = board.with_falling(piece);
    if grounded(piece.units, moved.heights) {
        let next = chosen(board.selection, index);
        lemma_spawn_anchored(next);
        if tops_out(piece.units) {
            lemma_fresh_wf(board.selection);
        } else {
            let rows = full_rows(moved.line_counts, piece.units, LINES as int);
            lemma_full_rows(moved.line_counts, piece.units, LINES as int);
            lemma_heights_after_bounded(moved.heights, piece.units);
            let heap = BoardView {
                line_counts: counts_after(moved.line_counts, piece.units),
                heights: heights_after(moved.heights, piece.units),
                settled: moved.settled.merged(moved.falling),
                ..moved
            };
            assert forall|i: int| 0 <= i < heap.settled.units.len() implies (#[trigger] heap.settled.units[i]).valid() by {
                if i < moved.settled.units.len() {
                    assert(moved.settled.units[i].valid());
                } else {
                    assert(piece.units[i - moved.settled.units.len()].valid());
                }
            }
            assert(heap.wf());
            if rows.len() > 0 {
                lemma_cleared_wf(heap, rows);
            }
        }
    }
}

} // verus!
