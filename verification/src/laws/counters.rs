//! The row counters and the settled material.

use crate::board::{
    after_input, ascending_rows, cleared, completes, count_in_row, counts_after, drop_of,
    full_rows, grounded, heights_after, in_lines, lemma_after_input, lemma_drop_fits,
    lemma_full_rows, relocated, spared, ticked, tops_out, BoardView,
};
use crate::grid::{PrimitiveBox, COLS, LINES};
use crate::interface::KeyCode;
use crate::laws::clearing::{fall, lemma_collapsed_falls};
use crate::laws::wellformed::lemma_heights_after_bounded;
use crate::shape::all_valid;
use vstd::prelude::*;

verus! {

/// While the counters follow their material down, none of them grows: each
/// is a counter that was there before, or zero.
pub proof fn lemma_relocated_bounded(counts: Seq<u8>, lines: Seq<usize>, from: int, bound: int)
    requires
        counts.len() == LINES,
        ascending_rows(lines),
        0 <= from <= LINES,
        bound > 0,
        forall|r: int| 0 <= r < LINES ==> #[trigger] counts[r] < bound,
    ensures
        relocated(counts, lines, from).len() == LINES,
        forall|r: int| 0 <= r < LINES ==> #[trigger] relocated(counts, lines, from)[r] < bound,
    decreases LINES - from,
{
    if from < LINES {
        lemma_relocated_bounded(counts, lines, from + 1, bound);
        lemma_drop_fits(lines, from);
    }
}

/// No row counter ever exceeds the number of columns: after a tick on a
/// well-formed board every counter is below it.
pub proof fn lemma_counters_stay_below_columns(board: BoardView, input: Option<KeyCode>, index: int)
    requires
        board.wf(),
    ensures
        ticked(board, input, index).line_counts.len() == LINES,
        forall|r: int| 0 <= r < LINES ==> #[trigger] ticked(board, input, index).line_counts[r] < COLS,
        forall|r: int| 0 <= r < LINES ==> #[trigger] ticked(board, input, index).line_counts[r] <= COLS,
{
    let moved = board.with_falling(after_input(board.falling, board.heights, input));
    let units = moved.falling.units;
    let settled = counts_after(moved.line_counts, units);
    let rows = full_rows(moved.line_counts, units, LINES as int);
    lemma_full_rows(moved.line_counts, units, LINES as int);
    lemma_relocated_bounded(settled, rows, 0, COLS as int);
    assert forall|r: int| 0 <= r < LINES implies #[trigger] ticked(board, input, index).line_counts[r]
        < COLS by {
        assert(settled[r] < COLS);
        assert(relocated(settled, rows, 0)[r] < COLS);
    }
}

/// A counter goes back to zero exactly when it would reach the number of
/// columns: when one unit settles in `row`, the counter of that row grows by
/// one unless that makes the row full, in which case it is zero and the row
/// is listed as full; no other counter changes and no other row is listed.
pub proof fn lemma_counter_resets_when_full(counts: Seq<u8>, unit: PrimitiveBox, row: int)
    requires
        counts.len() == LINES,
        forall|r: int| 0 <= r < LINES ==> #[trigger] counts[r] < COLS,
        0 <= row < LINES,
    ensures
        unit.row() == row && counts[row] + 1 < COLS ==> counts_after(counts, seq![unit])[row] == counts[row]
            + 1 && !completes(counts, seq![unit], row),
        unit.row() == row && counts[row] + 1 == COLS ==> counts_after(counts, seq![unit])[row] == 0
            && completes(counts, seq![unit], row),
        unit.row() != row ==> counts_after(counts, seq![unit])[row] == counts[row] && !completes(
            counts,
            seq![unit],
            row,
        ),
        completes(counts, seq![unit], row) <==> in_lines(full_rows(counts, seq![unit], LINES as int), row),
{
    let one = seq![unit];
    assert(one.drop_last() =~= Seq::<PrimitiveBox>::empty());
    assert(one.last() == unit);
    assert(count_in_row(one.drop_last(), row) == 0);
    assert(count_in_row(one, row) == if unit.row() == row {
        1nat
    } else {
        0nat
    });
    lemma_full_rows(counts, one, LINES as int);
    let rows = full_rows(counts, one, LINES as int);
    if in_lines(rows, row) {
        let i = choose|i: int| 0 <= i < rows.len() && rows[i] == row;
        assert(completes(counts, one, rows[i] as int));
    }
}

/// From one row to the row below it, the number of listed rows below goes
/// down by one exactly if the lower row is listed.
pub proof fn lemma_drop_step(lines: Seq<usize>, row: int)
    requires
        ascending_rows(lines),
    ensures
        drop_of(lines, row) == drop_of(lines, row + 1) + if in_lines(lines, row + 1) {
            1int
        } else {
            0int
        },
    decreases lines.len(),
{
    if lines.len() > 0 {
        let earlier = lines.drop_last();
        lemma_drop_step(earlier, row);
        if in_lines(earlier, row + 1) {
            let i = choose|i: int| 0 <= i < earlier.len() && earlier[i] == row + 1;
            assert(lines[i] == row + 1);
            assert(lines[i] < lines[lines.len() - 1]);
        }
        if lines.last() == row + 1 {
            assert(lines[lines.len() - 1] == row + 1);
        }
        if in_lines(lines, row + 1) {
            let i = choose|i: int| 0 <= i < lines.len() && lines[i] == row + 1;
            if i < lines.len() - 1 {
                assert(earlier[i] == row + 1);
            }
        }
    }
}

/// Material keeps its order while it falls: a row does not come to rest
/// below a row that started below it, and two rows come to rest in the same
/// place only if the lower one is listed and so has no material.
pub proof fn lemma_fall_keeps_order(lines: Seq<usize>, upper: int, lower: int)
    requires
        ascending_rows(lines),
        upper < lower,
    ensures
        upper + drop_of(lines, upper) <= lower + drop_of(lines, lower),
        upper + drop_of(lines, upper) == lower + drop_of(lines, lower) ==> in_lines(lines, lower),
    decreases lower - upper,
{
    lemma_drop_step(lines, lower - 1);
    if upper < lower - 1 {
        lemma_fall_keeps_order(lines, upper, lower - 1);
    }
}

/// The counters while they follow their material, rows `from` and below
/// having been dealt with.
pub proof fn lemma_relocated(counts: Seq<u8>, lines: Seq<usize>, from: int)
    requires
        counts.len() == LINES,
        ascending_rows(lines),
        forall|i: int| 0 <= i < lines.len() ==> counts[#[trigger] lines[i] as int] == 0,
        0 <= from <= LINES,
    ensures
        relocated(counts, lines, from).len() == LINES,
        forall|r: int| 0 <= r < from ==> #[trigger] relocated(counts, lines, from)[r] == counts[r],
        forall|r: int|
            from <= r < LINES && !in_lines(lines, r) ==> relocated(counts, lines, from)[r + drop_of(lines, r)]
                == #[trigger] counts[r],
        forall|t: int|
            from <= t < LINES && (forall|r: int|
                from <= r < LINES && !in_lines(lines, r) ==> r + #[trigger] drop_of(lines, r) != t)
                ==> #[trigger] relocated(counts, lines, from)[t] == 0,
    decreases LINES - from,
{
    if from < LINES {
        lemma_relocated(counts, lines, from + 1);
        lemma_drop_fits(lines, from);
        let later = relocated(counts, lines, from + 1);
        let now = relocated(counts, lines, from);
        let fall = drop_of(lines, from);
        assert(later[from] == counts[from]);
        assert forall|r: int| from <= r < LINES && !in_lines(lines, r) implies now[r + drop_of(lines, r)]
            == #[trigger] counts[r] by {
            lemma_drop_fits(lines, r);
            if r > from {
                lemma_fall_keeps_order(lines, from, r);
                assert(later[r + drop_of(lines, r)] == counts[r]);
            }
        }
        assert forall|t: int|
            from <= t < LINES && (forall|r: int|
                from <= r < LINES && !in_lines(lines, r) ==> r + #[trigger] drop_of(lines, r) != t) implies #[trigger] now[t]
            == 0 by {
            if in_lines(lines, from) {
                let i = choose|i: int| 0 <= i < lines.len() && lines[i] == from;
                assert(counts[lines[i] as int] == 0);
            }
            if t == from || t == from + fall {
                if !in_lines(lines, from) {
                    assert(from + drop_of(lines, from) != t);
                }
            } else {
                assert(now[t] == later[t]);
                assert forall|r: int| from + 1 <= r < LINES && !in_lines(lines, r) implies r + #[trigger] drop_of(
                    lines,
                    r,
                ) != t by {}
            }
        }
    }
}

/// The row counters move with their material: when rows are cleared whose
/// counters have gone back to zero, the counter of every other row ends up
/// in the row to which the material of that row falls, and every row to
/// which no material falls has a counter of zero. Counters are moved, never
/// added up.
pub proof fn lemma_counters_follow_their_material(counts: Seq<u8>, lines: Seq<usize>)
    requires
        counts.len() == LINES,
        ascending_rows(lines),
        forall|i: int| 0 <= i < lines.len() ==> counts[#[trigger] lines[i] as int] == 0,
    ensures
        relocated(counts, lines, 0).len() == LINES,
        forall|r: int|
            0 <= r < LINES && !in_lines(lines, r) ==> relocated(counts, lines, 0)[r + drop_of(lines, r)]
                == #[trigger] counts[r],
        forall|t: int|
            0 <= t < LINES && (forall|r: int|
                0 <= r < LINES && !in_lines(lines, r) ==> r + #[trigger] drop_of(lines, r) != t)
                ==> #[trigger] relocated(counts, lines, 0)[t] == 0,
{
    lemma_relocated(counts, lines, 0);
}

/// The counter of every row is the number of settled units in that row.
pub open spec fn counts_exact(board: BoardView) -> bool {
    forall|r: int| 0 <= r < LINES ==> #[trigger] board.line_counts[r] == count_in_row(board.settled.units, r)
}

/// No row would hold more units than it has columns once `units` have
/// settled.
pub open spec fn fits_in_rows(counts: Seq<u8>, units: Seq<PrimitiveBox>) -> bool {
    forall|r: int| 0 <= r < LINES ==> #[trigger] counts[r] + count_in_row(units, r) <= COLS
}

/// The units of a row of two heaps put together are those of the one and
/// those of the other.
pub proof fn lemma_count_in_row_concat(a: Seq<PrimitiveBox>, b: Seq<PrimitiveBox>, row: int)
    ensures
        count_in_row(a + b, row) == count_in_row(a, row) + count_in_row(b, row),
    decreases b.len(),
{
    if b.len() == 0 {
        assert(a + b =~= a);
    } else {
        lemma_count_in_row_concat(a, b.drop_last(), row);
        assert((a + b).drop_last() =~= a + b.drop_last());
        assert((a + b).last() == b.last());
    }
}

/// Taking one unit out of a heap takes one unit out of its row and none out
/// of any other.
pub proof fn lemma_count_in_row_remove(units: Seq<PrimitiveBox>, at: int, row: int)
    requires
        0 <= at < units.len(),
    ensures
        count_in_row(units, row) == count_in_row(units.remove(at), row) + if units[at].row() == row {
            1int
        } else {
            0int
        },
    decreases units.len(),
{
    if at == units.len() - 1 {
        assert(units.remove(at) =~= units.drop_last());
    } else {
        lemma_count_in_row_remove(units.drop_last(), at, row);
        assert(units.remove(at).drop_last() =~= units.drop_last().remove(at));
        assert(units.remove(at).last() == units.last());
    }
}

/// The number of units in a row does not depend on the order of the units.
pub proof fn lemma_count_in_row_of_multiset(a: Seq<PrimitiveBox>, b: Seq<PrimitiveBox>, row: int)
    requires
        a.to_multiset() == b.to_multiset(),
    ensures
        count_in_row(a, row) == count_in_row(b, row),
    decreases a.len(),
{
    a.to_multiset_ensures();
    b.to_multiset_ensures();
    if a.len() == 0 {
        assert(b.len() == 0);
    } else {
        let last = a.last();
        assert(a.to_multiset().count(last) > 0) by {
            assert(a.contains(last));
        }
        assert(b.contains(last));
        let j = choose|j: int| 0 <= j < b.len() && b[j] == last;
        assert(a.drop_last() =~= a.remove(a.len() - 1));
        vstd::seq_lib::to_multiset_remove(a, a.len() - 1);
        vstd::seq_lib::to_multiset_remove(b, j);
        lemma_count_in_row_of_multiset(a.drop_last(), b.remove(j), row);
        lemma_count_in_row_remove(b, j, row);
    }
}

/// A row that is not cleared keeps its units while they fall: the row in
/// which its material comes to rest holds as many units as the row held.
pub proof fn lemma_fallen_row_keeps_its_units(units: Seq<PrimitiveBox>, lines: Seq<usize>, row: int)
    requires
        ascending_rows(lines),
        all_valid(units),
        0 <= row < LINES,
        !in_lines(lines, row),
    ensures
        count_in_row(units.filter(spared(lines)).map_values(fall(lines)), row + drop_of(lines, row))
            == count_in_row(units, row),
    decreases units.len(),
{
    reveal(Seq::filter);
    let f = fall(lines);
    let keep = spared(lines);
    if units.len() == 0 {
        assert(units.filter(keep).map_values(f) =~= Seq::<PrimitiveBox>::empty());
    } else {
        let rest = units.drop_last();
        let last = units.last();
        assert(last.valid());
        assert forall|i: int| 0 <= i < rest.len() implies (#[trigger] rest[i]).valid() by {
            assert(units[i].valid());
        }
        lemma_fallen_row_keeps_its_units(rest, lines, row);
        if keep(last) {
            let moved = rest.filter(keep).map_values(f).push(f(last));
            assert(units.filter(keep).map_values(f) =~= moved);
            assert(moved.drop_last() =~= rest.filter(keep).map_values(f));
            lemma_drop_fits(lines, last.row());
            assert(f(last).row() == last.row() + drop_of(lines, last.row()));
            if last.row() < row {
                lemma_fall_keeps_order(lines, last.row(), row);
            } else if row < last.row() {
                lemma_fall_keeps_order(lines, row, last.row());
            }
        } else {
            assert(units.filter(keep) == rest.filter(keep));
            assert(in_lines(lines, last.row()));
        }
    }
}

/// A row in which no material comes to rest holds no unit after the rows
/// have been cleared.
pub proof fn lemma_row_without_material_is_empty(units: Seq<PrimitiveBox>, lines: Seq<usize>, target: int)
    requires
        ascending_rows(lines),
        all_valid(units),
        forall|r: int| 0 <= r < LINES && !in_lines(lines, r) ==> r + #[trigger] drop_of(lines, r) != target,
    ensures
        count_in_row(units.filter(spared(lines)).map_values(fall(lines)), target) == 0,
    decreases units.len(),
{
    reveal(Seq::filter);
    let f = fall(lines);
    let keep = spared(lines);
    if units.len() == 0 {
        assert(units.filter(keep).map_values(f) =~= Seq::<PrimitiveBox>::empty());
    } else {
        let rest = units.drop_last();
        let last = units.last();
        assert(last.valid());
        assert forall|i: int| 0 <= i < rest.len() implies (#[trigger] rest[i]).valid() by {
            assert(units[i].valid());
        }
        lemma_row_without_material_is_empty(rest, lines, target);
        if keep(last) {
            let moved = rest.filter(keep).map_values(f).push(f(last));
            assert(units.filter(keep).map_values(f) =~= moved);
            assert(moved.drop_last() =~= rest.filter(keep).map_values(f));
            lemma_drop_fits(lines, last.row());
            assert(f(last).row() == last.row() + drop_of(lines, last.row()));
            assert(last.row() + drop_of(lines, last.row()) != target);
        } else {
            assert(units.filter(keep) == rest.filter(keep));
        }
    }
}

/// Clearing rows keeps the counters exact: where every counter is the
/// number of units in its row, except that the counters of the listed rows
/// have gone back to zero, every counter is the number of units in its row
/// again once the listed rows have been cleared.
pub proof fn lemma_clearing_keeps_counts_exact(board: BoardView, lines: Seq<usize>)
    requires
        board.wf(),
        ascending_rows(lines),
        forall|r: int|
            0 <= r < LINES && !in_lines(lines, r) ==> #[trigger] board.line_counts[r] == count_in_row(
                board.settled.units,
                r,
            ),
        forall|i: int| 0 <= i < lines.len() ==> board.line_counts[#[trigger] lines[i] as int] == 0,
    ensures
        counts_exact(cleared(board, lines)),
{
    let units = board.settled.units;
    let counts = board.line_counts;
    let after = cleared(board, lines);
    let moved = units.filter(spared(lines)).map_values(fall(lines));
    lemma_counters_follow_their_material(counts, lines);
    lemma_collapsed_falls(units, lines);
    assert forall|t: int| 0 <= t < LINES implies #[trigger] after.line_counts[t] == count_in_row(
        after.settled.units,
        t,
    ) by {
        lemma_count_in_row_of_multiset(after.settled.units, moved, t);
        if exists|r: int| 0 <= r < LINES && !in_lines(lines, r) && r + #[trigger] drop_of(lines, r) == t {
            let r = choose|r: int| 0 <= r < LINES && !in_lines(lines, r) && r + #[trigger] drop_of(lines, r) == t;
            lemma_fallen_row_keeps_its_units(units, lines, r);
            assert(after.line_counts[r + drop_of(lines, r)] == counts[r]);
        } else {
            lemma_row_without_material_is_empty(units, lines, t);
        }
    }
}

/// Where the tick lets the piece settle without ending the game, the piece
/// puts no more units into a row than the row has room for. Any other tick
/// meets this.
#[verifier::opaque]
pub open spec fn settles_within_rows(board: BoardView, input: Option<KeyCode>) -> bool {
    let piece = after_input(board.falling, board.heights, input);
    grounded(piece.units, board.heights) && !tops_out(piece.units) ==> fits_in_rows(
        board.line_counts,
        piece.units,
    )
}

/// The counters stay exact from tick to tick: where every counter is the
/// number of settled units in its row before a tick, it is so after it, as
/// long as the piece that settles does not put more units into a row than
/// the row has room for.
pub proof fn lemma_tick_keeps_counts_exact(board: BoardView, input: Option<KeyCode>, index: int)
    requires
        board.wf(),
        counts_exact(board),
        settles_within_rows(board, input),
    ensures
        counts_exact(ticked(board, input, index)),
{
    reveal(settles_within_rows);
    let piece = after_input(board.falling, board.heights, input);
    lemma_after_input(board.falling, board.heights, input);
    let moved = board.with_falling(piece);
    if grounded(piece.units, board.heights) {
        if tops_out(piece.units) {
            let none = Seq::<PrimitiveBox>::empty();
            assert forall|r: int| 0 <= r < LINES implies count_in_row(none, r) == 0 by {}
        } else {
            let rows = full_rows(moved.line_counts, piece.units, LINES as int);
            lemma_full_rows(moved.line_counts, piece.units, LINES as int);
            lemma_heights_after_bounded(moved.heights, piece.units);
            let heap = BoardView {
                line_counts: counts_after(moved.line_counts, piece.units),
                heights: heights_after(moved.heights, piece.units),
                settled: moved.settled.merged(moved.falling),
                ..moved
            };
            assert forall|i: int| 0 <= i < heap.settled.units.len() implies (#[trigger] heap.settled.units[i]).valid() by {
                if i < moved.settled.units.len() {
                    assert(moved.settled.units[i].valid());
                } else {
                    assert(piece.units[i - moved.settled.units.len()].valid());
                }
            }
            assert(heap.wf());
            assert forall|r: int| 0 <= r < LINES && !in_lines(rows, r) implies #[trigger] heap.line_counts[r]
                == count_in_row(heap.settled.units, r) by {
                lemma_count_in_row_concat(moved.settled.units, piece.units, r);
                assert(board.line_counts[r] + count_in_row(piece.units, r) <= COLS);
                assert(!completes(moved.line_counts, piece.units, r));
            }
            assert forall|i: int| 0 <= i < rows.len() implies heap.line_counts[#[trigger] rows[i] as int] == 0 by {
                let r = rows[i] as int;
                assert(completes(moved.line_counts, piece.units, r));
                assert(board.line_counts[r] + count_in_row(piece.units, r) <= COLS);
            }
            if rows.len() > 0 {
                lemma_clearing_keeps_counts_exact(heap, rows);
            } else {
                assert forall|r: int| 0 <= r < LINES implies !in_lines(rows, r) by {}
            }
        }
    }
}

} // verus!
