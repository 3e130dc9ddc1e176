//! Games without turns: as long as no piece is turned, the recorded column
//! heights are the heights of the settled material after every tick.
//!
//! Every archetype spawns with the units of each column listed from the
//! bottom up, and moving a piece keeps that order. A piece that settles
//! sets the heights unit by unit, so with this order the topmost unit of a
//! column has the last word.

use crate::board::{
    after_input, chosen, fresh, grounded, is_blocked_at, lemma_after_input, lemma_spawn_anchored,
    obstructed, shift_allowed, ticked, tops_out, would_be_blocked_at, BoardView, Selection,
    KEY_CLOCKWISE, KEY_COUNTERCLOCKWISE,
};
use crate::catalog::{lemma_spawned, Archetype};
use crate::game::{first_command, played};
use crate::grid::PrimitiveBox;
use crate::interface::KeyCode;
use crate::laws::games::lemma_fresh_is_exact;
use crate::laws::heights::{
    heights_exact, last_of_column, lemma_tick_keeps_heights_exact, settles_top_last, top_is_listed_last,
};
use crate::laws::wellformed::lemma_tick_keeps_wf;
use crate::shape::{has_room, Direction, ShapeView};
use vstd::prelude::*;

verus! {

/// The command turns the piece.
pub open spec fn is_turn(input: Option<KeyCode>) -> bool {
    input == Some(KeyCode::Char(KEY_CLOCKWISE)) || input == Some(KeyCode::Char(KEY_COUNTERCLOCKWISE))
}

/// The units of each column are listed from the bottom up: of two units in
/// the same column the one listed later is not the lower one.
pub open spec fn bottom_up(units: Seq<PrimitiveBox>) -> bool {
    forall|i: int, j: int|
        0 <= i < j < units.len() && (#[trigger] units[i]).col() == (#[trigger] units[j]).col() ==> units[j].row()
            <= units[i].row()
}

/// One of the units lies in the top row.
pub open spec fn touches_top(units: Seq<PrimitiveBox>) -> bool {
    exists|i: int| 0 <= i < units.len() && (#[trigger] units[i]).row() == 0
}

/// What holds of a board throughout a game without turns.
///
/// The board is well formed and its heights are exact; the falling piece
/// lists the units of each column from the bottom up; and the piece has
/// either just spawned, so that it touches the top row, or it hangs free.
pub open spec fn unturned(board: BoardView) -> bool {
    &&& board.wf()
    &&& heights_exact(board)
    &&& bottom_up(board.falling.units)
    &&& (touches_top(board.falling.units) || !grounded(board.falling.units, board.heights))
}

/// Every archetype spawns touching the top row, with the units of each
/// column listed from the bottom up.
pub proof fn lemma_spawned_bottom_up(archetype: Archetype)
    ensures
        bottom_up(archetype.units()),
        touches_top(archetype.units()),
{
    lemma_spawned(archetype);
    let units = archetype.units();
    assert(units[0].valid() && units[1].valid() && units[2].valid() && units[3].valid());
    assert(units[3].row() == 0);
    assert forall|i: int, j: int|
        0 <= i < j < units.len() && (#[trigger] units[i]).col() == (#[trigger] units[j]).col() implies units[j].row()
        <= units[i].row() by {
        assert(0 <= i < 4 && 0 <= j < 4);
    }
}

/// Moving a piece keeps the order of its units within each column.
pub proof fn lemma_shifted_bottom_up(piece: ShapeView, dir: Direction)
    requires
        piece.wf(),
        piece.can_shift(dir),
        bottom_up(piece.units),
    ensures
        bottom_up(piece.shifted(dir).units),
{
    let after = piece.shifted(dir).units;
    assert forall|i: int, j: int|
        0 <= i < j < after.len() && (#[trigger] after[i]).col() == (#[trigger] after[j]).col() implies after[j].row()
        <= after[i].row() by {
        assert(piece.units[i].valid() && piece.units[j].valid());
        assert(has_room(piece.units[i], dir) && has_room(piece.units[j], dir));
        assert(piece.units[i].col() == piece.units[j].col());
    }
}

/// A command that is no turn leaves the order of the units within each
/// column as it is, and moves no unit by more than one row.
pub proof fn lemma_unturned_input(piece: ShapeView, heights: Seq<i32>, input: Option<KeyCode>)
    requires
        piece.wf(),
        piece.anchored(),
        bottom_up(piece.units),
        !is_turn(input),
    ensures
        bottom_up(after_input(piece, heights, input).units),
        touches_top(piece.units) ==> tops_out(after_input(piece, heights, input).units),
{
    let after = after_input(piece, heights, input);
    if piece.can_shift(Direction::Down) {
        lemma_shifted_bottom_up(piece, Direction::Down);
    }
    if piece.can_shift(Direction::Left) {
        lemma_shifted_bottom_up(piece, Direction::Left);
    }
    if piece.can_shift(Direction::Right) {
        lemma_shifted_bottom_up(piece, Direction::Right);
    }
    if touches_top(piece.units) {
        let i = choose|i: int| 0 <= i < piece.units.len() && (#[trigger] piece.units[i]).row() == 0;
        assert(piece.units[i].valid());
        assert(after.units.len() == piece.units.len());
        if after != piece {
            assert(after.units[i].row() <= 1);
        } else {
            assert(after.units[i].row() <= 1);
        }
    }
}

/// One tick of a game without turns.
pub proof fn lemma_unturned_tick(board: BoardView, input: Option<KeyCode>, index: int)
    requires
        unturned(board),
        !is_turn(input),
    ensures
        unturned(ticked(board, input, index)),
{
    let piece = after_input(board.falling, board.heights, input);
    let heights = board.heights;
    lemma_after_input(board.falling, heights, input);
    lemma_unturned_input(board.falling, heights, input);
    lemma_tick_keeps_wf(board, input, index);
    assert(settles_top_last(board, input)) by {
        reveal(settles_top_last);
        if grounded(piece.units, heights) && !tops_out(piece.units) {
            // the piece hung free before the command
            assert(!grounded(board.falling.units, heights));
            assert forall|i: int| 0 <= i < piece.units.len() implies !would_be_blocked_at(
                #[trigger] piece.units[i],
                heights,
            ) by {
                assert(!is_blocked_at(board.falling.units[i], heights));
                assert(board.falling.units[i].valid());
                if piece != board.falling {
                    if input == Some(KeyCode::ArrowLeft) {
                        assert(shift_allowed(board.falling, Direction::Left, heights));
                        assert(!obstructed(piece.units, heights));
                    } else if input == Some(KeyCode::ArrowRight) {
                        assert(shift_allowed(board.falling, Direction::Right, heights));
                        assert(!obstructed(piece.units, heights));
                    } else {
                        assert(piece == board.falling.shifted(Direction::Down));
                        assert(has_room(board.falling.units[i], Direction::Down));
                    }
                }
            }
            assert forall|i: int| 0 <= i < piece.units.len() && last_of_column(piece.units, i) implies {
                &&& crate::grid::LINES - (#[trigger] piece.units[i]).row() >= heights[piece.units[i].col()]
                &&& forall|j: int|
                    0 <= j < piece.units.len() && piece.units[j].col() == piece.units[i].col()
                        ==> piece.units[i].row() <= (#[trigger] piece.units[j]).row()
            } by {
                assert(piece.units[i].valid());
                assert(!would_be_blocked_at(piece.units[i], heights));
                assert forall|j: int|
                    0 <= j < piece.units.len() && piece.units[j].col() == piece.units[i].col() implies piece.units[i].row()
                    <= (#[trigger] piece.units[j]).row() by {
                    if j > i {
                        assert(piece.units[j].col() != piece.units[i].col());
                    }
                }
            }
            assert(top_is_listed_last(piece.units, heights));
        }
    }
    lemma_tick_keeps_heights_exact(board, input, index);
    if grounded(piece.units, heights) {
        let next = chosen(board.selection, index);
        lemma_spawned_bottom_up(next);
        lemma_spawn_anchored(next);
    }
}

/// A new game is a game without turns so far.
pub proof fn lemma_fresh_unturned(selection: Selection)
    ensures
        unturned(fresh(selection)),
{
    lemma_fresh_is_exact(selection);
    lemma_spawned_bottom_up(Archetype::Long);
}

/// In a game in which no piece is turned, the height of every column is,
/// after every tick, `LINES` minus the row of the topmost settled unit of
/// the column, and zero for a column without settled units: whatever the
/// other inputs are and whichever pieces are drawn.
pub proof fn lemma_unturned_game_keeps_heights_exact(board: BoardView, samples: Seq<Seq<u8>>, draws: Seq<int>)
    requires
        unturned(board),
        draws.len() == samples.len(),
        forall|i: int| 0 <= i < samples.len() ==> !is_turn(first_command(#[trigger] samples[i])),
    ensures
        unturned(played(board, samples, draws)),
        heights_exact(played(board, samples, draws)),
    decreases samples.len(),
{
    if samples.len() > 0 {
        let earlier = samples.drop_last();
        assert forall|i: int| 0 <= i < earlier.len() implies !is_turn(first_command(#[trigger] earlier[i])) by {
            assert(earlier[i] == samples[i]);
        }
        lemma_unturned_game_keeps_heights_exact(board, earlier, draws.drop_last());
        assert(!is_turn(first_command(samples[samples.len() - 1])));
        lemma_unturned_tick(
            played(board, earlier, draws.drop_last()),
            first_command(samples.last()),
            draws.last(),
        );
    }
}

} // verus!
