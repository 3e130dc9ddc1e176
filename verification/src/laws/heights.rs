//! The recorded column heights and the settled material.

use crate::board::{
    after_input, cleared, column_height, full_rows, grounded, heights_after, heights_of,
    key_column, lemma_after_input, ticked, tops_out, BoardView,
};
use crate::grid::{col_x, row_y, PrimitiveBox, COLS, LINES};
use crate::interface::KeyCode;
use crate::shape::{all_valid, first_least, lemma_first_least};
use vstd::prelude::*;

verus! {

/// The recorded heights are the heights of the settled material: each is
/// `LINES` minus the row of the topmost settled unit of its column, and
/// zero for a column without settled units.
pub open spec fn heights_exact(board: BoardView) -> bool {
    board.heights == heights_of(board.settled.units)
}

/// In every column that the units touch, the unit that is listed last is
/// the topmost of them there and does not lie below the top of the stack.
///
/// When a piece settles, each of its units in turn sets the height of its
/// column, so the unit listed last decides. The heights come out right
/// exactly where that unit is the one that ends up on top.
pub open spec fn top_is_listed_last(units: Seq<PrimitiveBox>, heights: Seq<i32>) -> bool {
    forall|i: int|
        0 <= i < units.len() && last_of_column(units, i) ==> {
            &&& LINES - (#[trigger] units[i]).row() >= heights[units[i].col()]
            &&& forall|j: int|
                0 <= j < units.len() && units[j].col() == units[i].col() ==> units[i].row() <= (
                #[trigger] units[j]).row()
        }
}

/// No unit listed after `units[i]` lies in the same column.
pub open spec fn last_of_column(units: Seq<PrimitiveBox>, i: int) -> bool {
    forall|j: int| i < j < units.len() ==> (#[trigger] units[j]).col() != units[i].col()
}

/// What a scan finds among the first units of a sequence does not depend on
/// the units behind them.
pub proof fn lemma_first_least_of_prefix(
    front: Seq<PrimitiveBox>,
    back: Seq<PrimitiveBox>,
    key: spec_fn(PrimitiveBox) -> int,
    upto: int,
)
    requires
        upto <= front.len(),
    ensures
        first_least(front + back, key, upto) == first_least(front, key, upto),
    decreases upto,
{
    if upto > 1 {
        lemma_first_least_of_prefix(front, back, key, upto - 1);
        lemma_first_least(front, key, upto - 1);
        assert((front + back)[upto - 1] == front[upto - 1]);
        assert((front + back)[first_least(front, key, upto - 1)] == front[first_least(front, key, upto - 1)]);
    }
}

/// A valid unit lies in column `col` exactly if its left edge is the left
/// edge of that column.
pub proof fn lemma_column_of_valid(unit: PrimitiveBox, col: int)
    requires
        unit.valid(),
    ensures
        unit.col() == col <==> unit.x == col_x(col),
        0 <= unit.col() < COLS,
        0 <= unit.row() < LINES,
        unit.y == row_y(unit.row()),
        unit.x == col_x(unit.col()),
{
}

/// The height of a column is the largest distance from the floor of a unit
/// in it, and nothing else is.
pub proof fn lemma_column_height_is(units: Seq<PrimitiveBox>, col: int, height: int)
    requires
        all_valid(units),
        forall|i: int| 0 <= i < units.len() && (#[trigger] units[i]).col() == col ==> LINES - units[i].row() <= height,
        (height == 0 && forall|i: int| 0 <= i < units.len() ==> (#[trigger] units[i]).col() != col) || exists|
            i: int,
        |
            0 <= i < units.len() && (#[trigger] units[i]).col() == col && LINES - units[i].row() == height,
    ensures
        column_height(units, col) == height,
{
    if units.len() > 0 {
        let key = key_column(col_x(col));
        let n = units.len() as int;
        lemma_first_least(units, key, n);
        let top = units[first_least(units, key, n)];
        assert(top.valid());
        lemma_column_of_valid(top, col);
        if exists|i: int| 0 <= i < units.len() && (#[trigger] units[i]).col() == col && LINES - units[i].row() == height {
            let i = choose|i: int|
                0 <= i < units.len() && (#[trigger] units[i]).col() == col && LINES - units[i].row() == height;
            assert(units[i].valid());
            lemma_column_of_valid(units[i], col);
            assert(key(top) <= key(units[i]));
        } else {
            if top.x == col_x(col) {
                assert(top.col() == col);
            }
        }
    }
}

/// The height of a column is at least the distance from the floor of every
/// unit in it, and where it is not zero a unit of the column attains it.
pub proof fn lemma_column_height(units: Seq<PrimitiveBox>, col: int)
    requires
        all_valid(units),
    ensures
        0 <= column_height(units, col) <= LINES,
        forall|i: int|
            0 <= i < units.len() && (#[trigger] units[i]).col() == col ==> LINES - units[i].row() <= column_height(
                units,
                col,
            ),
        column_height(units, col) == 0 || exists|i: int|
            0 <= i < units.len() && (#[trigger] units[i]).col() == col && LINES - units[i].row() == column_height(
                units,
                col,
            ),
        column_height(units, col) == 0 ==> forall|i: int| 0 <= i < units.len() ==> (#[trigger] units[i]).col() != col,
{
    if units.len() > 0 {
        let key = key_column(col_x(col));
        let n = units.len() as int;
        lemma_first_least(units, key, n);
        let at = first_least(units, key, n);
        let top = units[at];
        assert(top.valid());
        lemma_column_of_valid(top, col);
        assert forall|i: int| 0 <= i < units.len() && (#[trigger] units[i]).col() == col implies LINES
            - units[i].row() <= column_height(units, col) && column_height(units, col) != 0 by {
            assert(units[i].valid());
            lemma_column_of_valid(units[i], col);
            assert(key(top) <= key(units[i]));
        }
        if top.x == col_x(col) {
            assert(units[at].col() == col && LINES - units[at].row() == column_height(units, col));
        }
    }
}

/// After units have settled, the height of a column is what the last of
/// them in that column made it, and what it was where none of them lies in
/// the column.
pub proof fn lemma_heights_after(heights: Seq<i32>, units: Seq<PrimitiveBox>, col: int)
    requires
        heights.len() == COLS,
        all_valid(units),
        0 <= col < COLS,
    ensures
        heights_after(heights, units).len() == COLS,
        (forall|i: int| 0 <= i < units.len() ==> (#[trigger] units[i]).col() != col) ==> heights_after(
            heights,
            units,
        )[col] == heights[col],
        forall|i: int|
            0 <= i < units.len() && (#[trigger] units[i]).col() == col && last_of_column(units, i)
                ==> heights_after(heights, units)[col] == LINES - units[i].row(),
    decreases units.len(),
{
    if units.len() > 0 {
        let rest = units.drop_last();
        let last = units.last();
        assert(last.valid());
        lemma_column_of_valid(last, col);
        lemma_heights_after(heights, rest, col);
        assert forall|i: int|
            0 <= i < units.len() && (#[trigger] units[i]).col() == col && last_of_column(
                units,
                i,
            ) implies heights_after(heights, units)[col] == LINES - units[i].row() by {
            if i < units.len() - 1 {
                assert(units[units.len() - 1].col() != units[i].col());
                assert(rest[i] == units[i]);
                assert(last_of_column(rest, i)) by {
                    assert forall|j: int| i < j < rest.len() implies (#[trigger] rest[j]).col() != rest[i].col() by {
                        assert(units[j].col() != units[i].col());
                    }
                }
            }
        }
        if forall|i: int| 0 <= i < units.len() ==> (#[trigger] units[i]).col() != col {
            assert(units[units.len() - 1].col() != col);
            assert forall|i: int| 0 <= i < rest.len() implies (#[trigger] rest[i]).col() != col by {
                assert(units[i].col() != col);
            }
        }
    }
}

/// Index of the last unit in column `col`, looking back from `upto`; a
/// negative number where there is none.
pub open spec fn last_in_column(units: Seq<PrimitiveBox>, col: int, upto: int) -> int
    decreases upto,
{
    if upto <= 0 {
        -1
    } else if units[upto - 1].col() == col {
        upto - 1
    } else {
        last_in_column(units, col, upto - 1)
    }
}

/// `last_in_column` finds the last unit of the column where there is one.
pub proof fn lemma_last_in_column(units: Seq<PrimitiveBox>, col: int, upto: int)
    requires
        0 <= upto <= units.len(),
    ensures
        -1 <= last_in_column(units, col, upto) < upto,
        last_in_column(units, col, upto) >= 0 ==> units[last_in_column(units, col, upto)].col() == col,
        forall|j: int| last_in_column(units, col, upto) < j < upto ==> (#[trigger] units[j]).col() != col,
    decreases upto,
{
    if upto > 0 && units[upto - 1].col() != col {
        lemma_last_in_column(units, col, upto - 1);
    }
}

/// Where the top of each column is listed last, settling keeps the heights
/// exact: heights that were the heights of the heap before a piece settled
/// on it are, after each unit has set the height of its column, the heights
/// of the heap with the piece.
pub proof fn lemma_settling_keeps_heights_exact(
    heap: Seq<PrimitiveBox>,
    heights: Seq<i32>,
    units: Seq<PrimitiveBox>,
)
    requires
        all_valid(heap),
        all_valid(units),
        heights == heights_of(heap),
        top_is_listed_last(units, heights),
    ensures
        heights_after(heights, units) == heights_of(heap + units),
{
    let all = heap + units;
    let after = heights_after(heights, units);
    assert forall|i: int| 0 <= i < all.len() implies (#[trigger] all[i]).valid() by {
        if i < heap.len() {
            assert(heap[i].valid());
        } else {
            assert(units[i - heap.len()].valid());
        }
    }
    lemma_heights_after(heights, units, 0);
    assert forall|c: int| 0 <= c < COLS implies after[c] == #[trigger] heights_of(all)[c] by {
        lemma_heights_after(heights, units, c);
        lemma_column_height(heap, c);
        lemma_last_in_column(units, c, units.len() as int);
        let at = last_in_column(units, c, units.len() as int);
        assert(heights[c] == column_height(heap, c));
        if at >= 0 {
            assert(last_of_column(units, at));
            let height = LINES - units[at].row();
            assert(units[at].valid());
            assert(after[c] == height);
            assert forall|i: int| 0 <= i < all.len() && (#[trigger] all[i]).col() == c implies LINES - all[i].row()
                <= height by {
                if i < heap.len() {
                    assert(heap[i].col() == c);
                } else {
                    assert(units[i - heap.len()].col() == units[at].col());
                }
            }
            assert(all[heap.len() + at] == units[at]);
            lemma_column_height_is(all, c, height);
        } else {
            let height = column_height(heap, c);
            assert forall|i: int| 0 <= i < all.len() && (#[trigger] all[i]).col() == c implies LINES - all[i].row()
                <= height by {
                if i < heap.len() {
                    assert(heap[i].col() == c);
                } else {
                    assert(units[i - heap.len()].col() != c);
                }
            }
            if height != 0 {
                let i = choose|i: int|
                    0 <= i < heap.len() && (#[trigger] heap[i]).col() == c && LINES - heap[i].row() == height;
                assert(all[i] == heap[i]);
            } else {
                assert forall|i: int| 0 <= i < all.len() implies (#[trigger] all[i]).col() != c by {
                    if i < heap.len() {
                        assert(heap[i].col() != c);
                    } else {
                        assert(units[i - heap.len()].col() != c);
                    }
                }
            }
            lemma_column_height_is(all, c, height);
        }
    }
    assert(after =~= heights_of(all));
}

/// Where the tick lets the piece settle without ending the game and without
/// completing a row, the piece lists the top of each of its columns last.
/// Any other tick meets this.
#[verifier::opaque]
pub open spec fn settles_top_last(board: BoardView, input: Option<KeyCode>) -> bool {
    let piece = after_input(board.falling, board.heights, input);
    grounded(piece.units, board.heights) && !tops_out(piece.units) && full_rows(
        board.line_counts,
        piece.units,
        LINES as int,
    ).len() == 0 ==> top_is_listed_last(piece.units, board.heights)
}

/// The heights stay exact from tick to tick: where the recorded heights are
/// those of the settled material before a tick, they are so after it.
///
/// A piece that settles without completing a row sets the heights unit by
/// unit, and the unit listed last in a column has the last word there. The
/// law is stated for the ticks in which that unit is the topmost of the
/// piece in its column and not below the stack; whenever a row is cleared,
/// and whenever the game starts afresh, the heights are exact whatever the
/// piece looked like.
pub proof fn lemma_tick_keeps_heights_exact(board: BoardView, input: Option<KeyCode>, index: int)
    requires
        board.wf(),
        heights_exact(board),
        settles_top_last(board, input),
    ensures
        heights_exact(ticked(board, input, index)),
{
    reveal(settles_top_last);
    let piece = after_input(board.falling, board.heights, input);
    lemma_after_input(board.falling, board.heights, input);
    if grounded(piece.units, board.heights) {
        if tops_out(piece.units) {
            let none = Seq::<PrimitiveBox>::empty();
            assert(heights_of(none) =~= Seq::new(COLS as nat, |c: int| 0i32));
        } else if full_rows(board.line_counts, piece.units, LINES as int).len() == 0 {
            lemma_settling_keeps_heights_exact(board.settled.units, board.heights, piece.units);
        }
    }
}

/// The height of every column, as `heights_of` gives it, is `LINES` minus
/// the row of the topmost unit of the column, and zero for a column without
/// units.
pub proof fn lemma_heights_of(units: Seq<PrimitiveBox>, col: int)
    requires
        all_valid(units),
        0 <= col < COLS,
    ensures
        0 <= heights_of(units)[col] <= LINES,
        forall|i: int|
            0 <= i < units.len() && (#[trigger] units[i]).col() == col ==> units[i].row() >= LINES - heights_of(
                units,
            )[col],
        heights_of(units)[col] == 0 <==> forall|i: int| 0 <= i < units.len() ==> (#[trigger] units[i]).col() != col,
        heights_of(units)[col] != 0 ==> exists|i: int|
            0 <= i < units.len() && (#[trigger] units[i]).col() == col && units[i].row() == LINES - heights_of(
                units,
            )[col],
{
    lemma_column_height(units, col);
    if forall|i: int| 0 <= i < units.len() ==> (#[trigger] units[i]).col() != col {
        lemma_column_height_is(units, col, 0);
    }
}

} // verus!
