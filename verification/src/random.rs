//! The pseudorandom source from which the next piece is drawn.

use rand::rngs::SmallRng;
use rand::Rng;
use rand::SeedableRng;
use vstd::prelude::*;

verus! {

/// The small pseudorandom generator of the `rand` crate. Its state is opaque
/// to the proofs: it is only carried from one draw to the next.
#[verifier::external_type_specification]
#[verifier::external_body]
pub struct ExSmallRng(SmallRng);

/// A generator seeded with `seed`.
///
/// Calls `SmallRng::seed_from_u64`. Nothing is claimed of the generator that
/// comes back.
#[verifier::external_body]
pub(crate) fn seeded_source(seed: u64) -> SmallRng {
    SmallRng::seed_from_u64(seed)
}

/// Draws a number below `bound`.
///
/// Calls `Rng::random_range` with the range `..bound`, which samples from
/// zero up to but not including `bound` and panics on an empty range; the
/// precondition rules the empty range out. Which number comes back depends
/// on the state of the generator, so only its range is claimed.
#[verifier::external_body]
pub(crate) fn draw_below(source: &mut SmallRng, bound: u32) -> (index: u32)
    requires
        bound > 0,
    ensures
        index < bound,
{
    source.random_range(..bound)
}

} // verus!
