//! The game loop: one tick per input sample.

use crate::board::{after_input, outcome_of, ticked, BoardView, GameState, TickOutcome};
use crate::catalog::ARCHETYPES;
use crate::interface::{decoded, parse_ansi, KeyCode};
use vstd::prelude::*;

verus! {

/// The command of an input sample: the first key that its bytes stand for.
/// A sample without a key is the absence of a command.
pub open spec fn first_command(sample: Seq<u8>) -> Option<KeyCode> {
    if decoded(sample, 0).len() > 0 {
        Some(decoded(sample, 0)[0])
    } else {
        None
    }
}

/// Every draw is the index of an archetype.
pub open spec fn valid_draws(draws: Seq<int>) -> bool {
    forall|i: int| 0 <= i < draws.len() ==> 0 <= #[trigger] draws[i] < ARCHETYPES
}

/// The board after the samples have been played in order, one tick each,
/// when the pseudorandom source draws `draws[i]` in tick `i`.
pub open spec fn played(board: BoardView, samples: Seq<Seq<u8>>, draws: Seq<int>) -> BoardView
    decreases samples.len(),
{
    if samples.len() == 0 {
        board
    } else {
        ticked(
            played(board, samples.drop_last(), draws.drop_last()),
            first_command(samples.last()),
            draws.last(),
        )
    }
}

/// What the ticks report while the samples are played.
pub open spec fn reported(board: BoardView, samples: Seq<Seq<u8>>, draws: Seq<int>) -> Seq<TickOutcome>
    decreases samples.len(),
{
    if samples.len() == 0 {
        Seq::empty()
    } else {
        let so_far = played(board, samples.drop_last(), draws.drop_last());
        reported(board, samples.drop_last(), draws.drop_last()).push(
            outcome_of(
                so_far.with_falling(after_input(so_far.falling, so_far.heights, first_command(samples.last()))),
            ),
        )
    }
}

/// Plays the input samples on `state`, one tick per sample, and reports what
/// each tick did.
///
/// A tick reads at most the first key of its sample. It applies that command
/// to the falling piece and then runs the settle check. The pieces that
/// spawn on the way are for the selection and the pseudorandom source to
/// say, so the final board is stated for some sequence of draws.
pub fn game_loop(state: &mut GameState, samples: &Vec<Vec<u8>>) -> (outcomes: Vec<TickOutcome>)
    requires
        old(state)@.wf(),
    ensures
        final(state)@.wf(),
        exists|draws: Seq<int>|
            {
                &&& draws.len() == samples.len()
                &&& valid_draws(draws)
                &&& final(state)@ == #[trigger] played(old(state)@, samples.deep_view(), draws)
                &&& outcomes@ == reported(old(state)@, samples.deep_view(), draws)
            },
{
    let ghost before = state@;
    let ghost all = samples.deep_view();
    let ghost mut draws: Seq<int> = Seq::empty();
    let mut outcomes: Vec<TickOutcome> = Vec::new();
    let mut i: usize = 0;
    proof {
        assert(all.take(0) =~= Seq::<Seq<u8>>::empty());
    }
    while i < samples.len()
        invariant
            i <= samples.len(),
            all == samples.deep_view(),
            all.len() == samples.len(),
            state@.wf(),
            draws.len() == i,
            valid_draws(draws),
            state@ == played(before, all.take(i as int), draws),
            outcomes@ == reported(before, all.take(i as int), draws),
        decreases samples.len() - i,
    {
        let ghost so_far = state@;
        let ghost earlier = draws;
        let next_keycodes = parse_ansi(samples[i].as_slice());
        assert(samples[i as int]@ == all[i as int]);
        let outcome = if next_keycodes.len() > 0 {
            state.tick(Some(&next_keycodes[0]))
        } else {
            state.tick(None)
        };
        outcomes.push(outcome);
        proof {
            let input = first_command(all[i as int]);
            let index = choose|index: int| 0 <= index < ARCHETYPES && state@ == #[trigger] ticked(so_far, input, index);
            draws = earlier.push(index);
            assert(all.take(i + 1).drop_last() =~= all.take(i as int));
            assert(all.take(i + 1).last() == all[i as int]);
            assert(draws.drop_last() =~= earlier);
        }
        i += 1;
    }
    proof {
        assert(all.take(i as int) =~= all);
    }
    outcomes
}

} // verus!
