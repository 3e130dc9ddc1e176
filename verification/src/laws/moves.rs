//! Moves and turns that are rejected, and what is left to chance.

use crate::board::{checked_shift, checked_turn, shift_allowed, ticked, turn_allowed, BoardView};
use crate::interface::KeyCode;
use crate::shape::{Direction, Rotation, ShapeView};
use vstd::prelude::*;

verus! {

/// A move that is rejected changes nothing, and so the same move is
/// rejected again: trying it twice leaves the piece as not trying it at all
/// does.
pub proof fn lemma_rejected_move_is_idempotent(piece: ShapeView, dir: Direction)
    requires
        !piece.can_shift(dir),
    ensures
        piece.translated(dir) == piece,
        piece.translated(dir).translated(dir) == piece,
{
}

/// A checked move that is rejected, by the edge of the playfield or
/// by the stack, changes nothing however often it is tried.
pub proof fn lemma_rejected_checked_move_is_idempotent(piece: ShapeView, dir: Direction, heights: Seq<i32>)
    requires
        !shift_allowed(piece, dir, heights),
    ensures
        checked_shift(piece, dir, heights) == piece,
        checked_shift(checked_shift(piece, dir, heights), dir, heights) == piece,
{
}

/// A quarter turn is all or nothing: the piece is either turned as a whole
/// or, where the turn is rejected, left exactly as it was, every unit and
/// the pivot alike.
pub proof fn lemma_turn_is_all_or_nothing(piece: ShapeView, rotation: Rotation, heights: Seq<i32>)
    ensures
        turn_allowed(piece, rotation, heights) ==> checked_turn(piece, rotation, heights) == piece.rotated(
            rotation,
        ),
        !turn_allowed(piece, rotation, heights) ==> {
            &&& checked_turn(piece, rotation, heights) == piece
            &&& forall|i: int|
                0 <= i < piece.units.len() ==> #[trigger] checked_turn(piece, rotation, heights).units[i]
                    == piece.units[i]
            &&& checked_turn(piece, rotation, heights).pivot == piece.pivot
        },
{
}

/// With a fixed selection nothing is left to chance: the board after a tick
/// is the same whatever the pseudorandom source would have drawn.
pub proof fn lemma_fixed_selection_is_deterministic(
    board: BoardView,
    input: Option<KeyCode>,
    one: int,
    other: int,
)
    requires
        board.selection is Always,
    ensures
        ticked(board, input, one) == ticked(board, input, other),
        ticked(board, input, one).selection == board.selection,
{
}

} // verus!
