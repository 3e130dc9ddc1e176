//! What clearing rows does to the score and to the heap.

use crate::board::{
    after_input, ascending_rows, cleared, collapsed, count_in_row, drop_of, full_rows, grounded,
    in_lines, lemma_drop_of_suffix, lemma_full_rows, score_after, settle_bands, spared, ticked,
    tops_out, BoardView,
};
use crate::grid::{row_y, PrimitiveBox, COLS, GRANULE_SIZE, LINES};
use crate::interface::KeyCode;
use crate::laws::splitting::{lemma_map_keeps_multisets_equal, lemma_split_parts};
use crate::shape::{all_valid, lemma_filter_keeps_valid, lowered, units_above, units_from};
use vstd::prelude::*;

verus! {

/// Number of units in the listed rows.
pub open spec fn count_in_lines(units: Seq<PrimitiveBox>, lines: Seq<usize>) -> int
    decreases lines.len(),
{
    if lines.len() == 0 {
        0
    } else {
        count_in_lines(units, lines.drop_last()) + count_in_row(units, lines.last() as int)
    }
}

/// What falls and what stays make up the heap: clearing changes the number
/// of units only by taking the listed rows out.
pub proof fn lemma_settle_bands_len(
    rest: Seq<PrimitiveBox>,
    fallen: Seq<PrimitiveBox>,
    lines: Seq<usize>,
    from: int,
)
    requires
        0 <= from,
    ensures
        settle_bands(rest, fallen, lines, from).len() == rest.len() + fallen.len(),
    decreases lines.len() - from,
{
    if from < lines.len() {
        let y = row_y(lines[from] as int);
        lemma_split_parts(rest, y);
        lemma_settle_bands_len(
            units_from(rest, y),
            fallen + lowered(units_above(rest, y), lines.len() - from),
            lines,
            from + 1,
        );
    }
}

/// One more unit is one more unit in the listed rows exactly if it lies in
/// one of them.
pub proof fn lemma_count_in_lines_push(units: Seq<PrimitiveBox>, unit: PrimitiveBox, lines: Seq<usize>)
    requires
        ascending_rows(lines),
    ensures
        count_in_lines(units.push(unit), lines) == count_in_lines(units, lines) + if in_lines(
            lines,
            unit.row(),
        ) {
            1int
        } else {
            0int
        },
    decreases lines.len(),
{
    let more = units.push(unit);
    assert(more.drop_last() =~= units);
    assert(more.last() == unit);
    if lines.len() > 0 {
        let earlier = lines.drop_last();
        lemma_count_in_lines_push(units, unit, earlier);
        if in_lines(earlier, unit.row()) {
            let i = choose|i: int| 0 <= i < earlier.len() && earlier[i] == unit.row();
            assert(lines[i] == unit.row());
            assert(lines[i] < lines[lines.len() - 1]);
        }
        if lines.last() == unit.row() {
            assert(lines[lines.len() - 1] == unit.row());
        }
        if in_lines(lines, unit.row()) {
            let i = choose|i: int| 0 <= i < lines.len() && lines[i] == unit.row();
            if i < lines.len() - 1 {
                assert(earlier[i] == unit.row());
            }
        }
    }
}

/// The units outside the listed rows and the units inside them are all the
/// units there are.
pub proof fn lemma_spared_len(units: Seq<PrimitiveBox>, lines: Seq<usize>)
    requires
        ascending_rows(lines),
    ensures
        units.filter(spared(lines)).len() + count_in_lines(units, lines) == units.len(),
    decreases units.len(),
{
    reveal(Seq::filter);
    if units.len() == 0 {
        lemma_count_in_lines_of_none(lines);
        assert(units =~= Seq::<PrimitiveBox>::empty());
    } else {
        let rest = units.drop_last();
        lemma_spared_len(rest, lines);
        lemma_count_in_lines_push(rest, units.last(), lines);
        assert(units == rest.push(units.last()));
    }
}

/// Where there are no units, there are none in the listed rows.
pub proof fn lemma_count_in_lines_of_none(lines: Seq<usize>)
    ensures
        count_in_lines(Seq::<PrimitiveBox>::empty(), lines) == 0,
    decreases lines.len(),
{
    if lines.len() > 0 {
        lemma_count_in_lines_of_none(lines.drop_last());
    }
}

/// Listed rows that hold `each` units hold `each` times their number in all.
pub proof fn lemma_count_in_full_lines(units: Seq<PrimitiveBox>, lines: Seq<usize>, each: int)
    requires
        forall|i: int| 0 <= i < lines.len() ==> count_in_row(units, #[trigger] lines[i] as int) == each,
    ensures
        count_in_lines(units, lines) == lines.len() * each,
    decreases lines.len(),
{
    if lines.len() > 0 {
        let earlier = lines.drop_last();
        assert forall|i: int| 0 <= i < earlier.len() implies count_in_row(units, #[trigger] earlier[i] as int)
            == each by {
            assert(earlier[i] == lines[i]);
        }
        lemma_count_in_full_lines(units, earlier, each);
        assert(count_in_row(units, lines[lines.len() - 1] as int) == each);
        assert(lines.len() * each == earlier.len() * each + each) by (nonlinear_arith)
            requires
                lines.len() == earlier.len() + 1,
        ;
    }
}

/// Clearing rows adds to the score and takes from the heap in equal
/// measure: when `k` full rows of a board with `COLS` columns are cleared,
/// the score grows by exactly `k * COLS` and the number of settled units
/// shrinks by exactly `k * COLS`.
///
/// The score is a 32-bit counter that wraps around; the law is stated for
/// boards on which it does not.
pub proof fn lemma_clear_is_additive(board: BoardView, lines: Seq<usize>)
    requires
        ascending_rows(lines),
        forall|i: int|
            0 <= i < lines.len() ==> count_in_row(board.settled.units, #[trigger] lines[i] as int) == COLS,
        board.score + lines.len() * COLS <= u32::MAX,
    ensures
        cleared(board, lines).score == board.score + lines.len() * COLS,
        cleared(board, lines).settled.units.len() == board.settled.units.len() - lines.len() * COLS,
{
    let units = board.settled.units;
    lemma_spared_len(units, lines);
    lemma_count_in_full_lines(units, lines, COLS as int);
    lemma_settle_bands_len(units.filter(spared(lines)), Seq::empty(), lines, 0);
    assert(collapsed(units, lines).len() == units.filter(spared(lines)).len());
    assert(score_after(board.score, lines.len() as int) == board.score + lines.len() * COLS);
}

/// Moves a unit down by the number of listed rows below it.
pub open spec fn fall(lines: Seq<usize>) -> spec_fn(PrimitiveBox) -> PrimitiveBox {
    |u: PrimitiveBox| u.moved(0, drop_of(lines, u.row()) * GRANULE_SIZE)
}

/// Every unit lies below the listed rows before place `from` and in none of
/// the listed rows.
pub open spec fn below_earlier_lines(units: Seq<PrimitiveBox>, lines: Seq<usize>, from: int) -> bool {
    forall|i: int|
        0 <= i < units.len() ==> {
            &&& !in_lines(lines, (#[trigger] units[i]).row())
            &&& forall|j: int| 0 <= j < from && j < lines.len() ==> lines[j] < units[i].row()
        }
}

/// While a heap collapses, what has not fallen yet will fall by the number
/// of listed rows below it.
pub proof fn lemma_settle_bands_fall(
    rest: Seq<PrimitiveBox>,
    fallen: Seq<PrimitiveBox>,
    lines: Seq<usize>,
    from: int,
)
    requires
        ascending_rows(lines),
        0 <= from <= lines.len(),
        all_valid(rest),
        below_earlier_lines(rest, lines, from),
    ensures
        settle_bands(rest, fallen, lines, from).to_multiset() == fallen.to_multiset().add(
            rest.map_values(fall(lines)).to_multiset(),
        ),
    decreases lines.len() - from,
{
    let f = fall(lines);
    if from >= lines.len() {
        assert(rest.map_values(f) =~= rest) by {
            assert forall|i: int| 0 <= i < rest.len() implies #[trigger] rest.map_values(f)[i] == rest[i] by {
                assert(rest[i].valid());
                lemma_drop_of_suffix(lines, rest[i].row(), lines.len() as int);
            }
        }
        vstd::seq_lib::lemma_multiset_commutative(rest, fallen);
        assert(rest.to_multiset().add(fallen.to_multiset()) =~= fallen.to_multiset().add(rest.to_multiset()));
    } else {
        let y = row_y(lines[from] as int);
        let stay = units_from(rest, y);
        let band = units_above(rest, y);
        let rows = lines.len() - from;
        lemma_split_parts(rest, y);
        lemma_filter_keeps_valid(rest, |u: PrimitiveBox| u.y >= y);
        lemma_filter_keeps_valid(rest, |u: PrimitiveBox| u.y < y);
        // what stays lies below the row of the cut
        assert forall|i: int| 0 <= i < stay.len() implies !in_lines(lines, (#[trigger] stay[i]).row()) && forall|
            j: int,
        |
            0 <= j < from + 1 && j < lines.len() ==> lines[j] < stay[i].row() by {
            rest.lemma_filter_pred(|u: PrimitiveBox| u.y >= y, i);
            assert(stay.contains(stay[i]));
            rest.lemma_filter_contains_rev(|u: PrimitiveBox| u.y >= y, stay[i]);
            let k = choose|k: int| 0 <= k < rest.len() && rest[k] == stay[i];
            assert(rest[k].valid());
            assert(!in_lines(lines, rest[k].row()));
            assert(rest[k].row() >= lines[from]);
            assert(lines[from] != rest[k].row());
            assert forall|j: int| 0 <= j < from + 1 && j < lines.len() implies lines[j] < stay[i].row() by {
                if j < from {
                    assert(lines[j] < lines[from]);
                }
            }
        }
        // what is cut off falls by the number of rows from the cut on
        assert(lowered(band, rows) =~= band.map_values(f)) by {
            assert forall|i: int| 0 <= i < band.len() implies #[trigger] lowered(band, rows)[i] == band.map_values(
                f,
            )[i] by {
                rest.lemma_filter_pred(|u: PrimitiveBox| u.y < y, i);
                assert(band.contains(band[i]));
                rest.lemma_filter_contains_rev(|u: PrimitiveBox| u.y < y, band[i]);
                let k = choose|k: int| 0 <= k < rest.len() && rest[k] == band[i];
                assert(rest[k].valid());
                assert(rest[k].row() < lines[from]);
                assert forall|j: int| 0 <= j < from implies lines[j] <= rest[k].row() by {
                    assert(lines[j] < rest[k].row());
                }
                assert forall|j: int| from <= j < lines.len() implies lines[j] > rest[k].row() by {
                    if from < j {
                        assert(lines[from] < lines[j]);
                    }
                }
                lemma_drop_of_suffix(lines, rest[k].row(), from);
            }
        }
        lemma_settle_bands_fall(stay, fallen + lowered(band, rows), lines, from + 1);
        // the parts of the heap, with each unit moved, are the heap with each unit moved
        vstd::seq_lib::lemma_multiset_commutative(stay, band);
        lemma_map_keeps_multisets_equal(rest, stay + band, f);
        assert((stay + band).map_values(f) =~= stay.map_values(f) + band.map_values(f));
        vstd::seq_lib::lemma_multiset_commutative(stay.map_values(f), band.map_values(f));
        vstd::seq_lib::lemma_multiset_commutative(fallen, band.map_values(f));
        assert(fallen.to_multiset().add(band.map_values(f).to_multiset()).add(stay.map_values(f).to_multiset())
            =~= fallen.to_multiset().add(rest.map_values(f).to_multiset()));
    }
}

/// Clearing rows takes the units of the listed rows out of the heap and
/// moves every other unit down by the number of listed rows below it:
/// nothing else is added, lost or moved. The order of the units aside, this
/// says what the heap is after the rows have been cleared.
pub proof fn lemma_collapsed_falls(units: Seq<PrimitiveBox>, lines: Seq<usize>)
    requires
        ascending_rows(lines),
        all_valid(units),
    ensures
        collapsed(units, lines).to_multiset() == units.filter(spared(lines)).map_values(
            fall(lines),
        ).to_multiset(),
{
    let survivors = units.filter(spared(lines));
    lemma_filter_keeps_valid(units, spared(lines));
    assert forall|i: int| 0 <= i < survivors.len() implies !in_lines(lines, (#[trigger] survivors[i]).row()) by {
        units.lemma_filter_pred(spared(lines), i);
    }
    lemma_settle_bands_fall(survivors, Seq::empty(), lines, 0);
    let none = Seq::<PrimitiveBox>::empty();
    assert(none.to_multiset().add(survivors.map_values(fall(lines)).to_multiset())
        =~= survivors.map_values(fall(lines)).to_multiset()) by {
        none.to_multiset_ensures();
    }
}

/// Within a game the score only grows: a tick that does not end the game
/// leaves the score alone or adds the number of columns for each row that
/// it clears. A tick that ends the game starts the next one at zero.
///
/// The score is a 32-bit counter that wraps around; the law is stated for
/// boards on which it does not.
pub proof fn lemma_score_grows_by_cleared_rows(board: BoardView, input: Option<KeyCode>, index: int)
    requires
        board.wf(),
        board.score + LINES * COLS <= u32::MAX,
    ensures
        ({
            let piece = after_input(board.falling, board.heights, input);
            let rows = full_rows(board.line_counts, piece.units, LINES as int);
            let after = ticked(board, input, index);
            if !grounded(piece.units, board.heights) {
                after.score == board.score
            } else if tops_out(piece.units) {
                after.score == 0
            } else {
                after.score == board.score + rows.len() * COLS && after.score >= board.score
            }
        }),
{
    let piece = after_input(board.falling, board.heights, input);
    let rows = full_rows(board.line_counts, piece.units, LINES as int);
    lemma_full_rows(board.line_counts, piece.units, LINES as int);
    assert(rows.len() * COLS <= LINES * COLS) by (nonlinear_arith)
        requires
            rows.len() <= LINES,
    ;
}

} // verus!
