//! What holds of a whole game: of every board that a sequence of input
//! samples leads to.

use crate::board::{fresh, lemma_fresh_wf, BoardView, Selection};
use crate::game::{first_command, played};
use crate::grid::{PrimitiveBox, COLS, LINES};
use crate::laws::counters::{counts_exact, lemma_tick_keeps_counts_exact, settles_within_rows};
use crate::laws::heights::{heights_exact, lemma_heights_of, lemma_tick_keeps_heights_exact, settles_top_last};
use crate::laws::wellformed::lemma_tick_keeps_wf;
use vstd::prelude::*;

verus! {

/// A new game is well formed, its heights are those of the settled material
/// and its counters count the settled units: there is none.
pub proof fn lemma_fresh_is_exact(selection: Selection)
    ensures
        fresh(selection).wf(),
        heights_exact(fresh(selection)),
        counts_exact(fresh(selection)),
{
    lemma_fresh_wf(selection);
    let none = Seq::<PrimitiveBox>::empty();
    assert forall|c: int| 0 <= c < COLS implies crate::board::heights_of(none)[c] == 0 by {
        lemma_heights_of(none, c);
    }
    assert(fresh(selection).heights =~= crate::board::heights_of(none));
}

/// The board before tick `i` of a game.
pub open spec fn board_before(board: BoardView, samples: Seq<Seq<u8>>, draws: Seq<int>, i: int) -> BoardView {
    played(board, samples.take(i), draws.take(i))
}

/// Playing any samples, with any draws, keeps a well-formed board well
/// formed.
pub proof fn lemma_game_keeps_wf(board: BoardView, samples: Seq<Seq<u8>>, draws: Seq<int>)
    requires
        board.wf(),
    ensures
        played(board, samples, draws).wf(),
    decreases samples.len(),
{
    if samples.len() > 0 {
        lemma_game_keeps_wf(board, samples.drop_last(), draws.drop_last());
        lemma_tick_keeps_wf(
            played(board, samples.drop_last(), draws.drop_last()),
            first_command(samples.last()),
            draws.last(),
        );
    }
}

/// After any completed tick of a game the height of every column is
/// `LINES` minus the row of the topmost settled unit of the column, and
/// zero for a column without settled units.
///
/// The law is stated for the games in which every piece that settles
/// without completing a row lists the top of each of its columns last: the
/// units set the heights in turn, so a piece that lists them otherwise
/// leaves a height behind that is not the height of the column.
pub proof fn lemma_game_keeps_heights_exact(board: BoardView, samples: Seq<Seq<u8>>, draws: Seq<int>)
    requires
        board.wf(),
        heights_exact(board),
        draws.len() == samples.len(),
        forall|i: int|
            0 <= i < samples.len() ==> settles_top_last(
                #[trigger] board_before(board, samples, draws, i),
                first_command(samples[i]),
            ),
    ensures
        heights_exact(played(board, samples, draws)),
    decreases samples.len(),
{
    if samples.len() > 0 {
        let earlier = samples.drop_last();
        let drawn = draws.drop_last();
        let last = samples.len() - 1;
        assert forall|i: int| 0 <= i < earlier.len() implies settles_top_last(
            #[trigger] board_before(board, earlier, drawn, i),
            first_command(earlier[i]),
        ) by {
            assert(earlier.take(i) =~= samples.take(i));
            assert(drawn.take(i) =~= draws.take(i));
            assert(settles_top_last(board_before(board, samples, draws, i), first_command(samples[i])));
        }
        lemma_game_keeps_heights_exact(board, earlier, drawn);
        lemma_game_keeps_wf(board, earlier, drawn);
        assert(samples.take(last) =~= earlier);
        assert(draws.take(last) =~= drawn);
        assert(settles_top_last(board_before(board, samples, draws, last), first_command(samples[last])));
        lemma_tick_keeps_heights_exact(played(board, earlier, drawn), first_command(samples.last()), draws.last());
    }
}

/// After any completed tick of a game every row counter is the number of
/// settled units in its row, as long as no piece that settles puts more
/// units into a row than the row has room for.
pub proof fn lemma_game_keeps_counts_exact(board: BoardView, samples: Seq<Seq<u8>>, draws: Seq<int>)
    requires
        board.wf(),
        counts_exact(board),
        draws.len() == samples.len(),
        forall|i: int|
            0 <= i < samples.len() ==> settles_within_rows(
                #[trigger] board_before(board, samples, draws, i),
                first_command(samples[i]),
            ),
    ensures
        counts_exact(played(board, samples, draws)),
    decreases samples.len(),
{
    if samples.len() > 0 {
        let earlier = samples.drop_last();
        let drawn = draws.drop_last();
        let last = samples.len() - 1;
        assert forall|i: int| 0 <= i < earlier.len() implies settles_within_rows(
            #[trigger] board_before(board, earlier, drawn, i),
            first_command(earlier[i]),
        ) by {
            assert(earlier.take(i) =~= samples.take(i));
            assert(drawn.take(i) =~= draws.take(i));
            assert(settles_within_rows(board_before(board, samples, draws, i), first_command(samples[i])));
        }
        lemma_game_keeps_counts_exact(board, earlier, drawn);
        lemma_game_keeps_wf(board, earlier, drawn);
        assert(samples.take(last) =~= earlier);
        assert(draws.take(last) =~= drawn);
        assert(settles_within_rows(board_before(board, samples, draws, last), first_command(samples[last])));
        lemma_tick_keeps_counts_exact(played(board, earlier, drawn), first_command(samples.last()), draws.last());
    }
}

/// In every game, whatever the inputs and the draws, no row counter ever
/// exceeds the number of columns.
pub proof fn lemma_game_keeps_counters_below_columns(board: BoardView, samples: Seq<Seq<u8>>, draws: Seq<int>)
    requires
        board.wf(),
    ensures
        played(board, samples, draws).line_counts.len() == LINES,
        forall|r: int| 0 <= r < LINES ==> #[trigger] played(board, samples, draws).line_counts[r] <= COLS,
{
    lemma_game_keeps_wf(board, samples, draws);
}

} // verus!
