//! Random draws, taken from the `rand` crate.

use rand::rngs::StdRng;
use rand::{Rng, SeedableRng};
use vstd::prelude::*;

verus! {

#[verifier::external_type_specification]
#[verifier::external_body]
pub struct ExStdRng(rand::rngs::StdRng);

/// Calls `StdRng::from_entropy`: a fresh generator, seeded by the operating
/// system. Nothing is claimed of the generator. Seeding stops the thread with
/// a panic if the system cannot supply entropy.
#[verifier::external_body]
pub(crate) fn entropy_rng() -> StdRng {
    StdRng::from_entropy()
}

/// Calls `Rng::gen_range(0, bound)`: one draw from the half-open range
/// `[0, bound)`. The range must not be empty. All that is claimed of the draw
/// is that it lies in the range.
#[verifier::external_body]
pub(crate) fn draw_below(rng: &mut StdRng, bound: usize) -> (r: usize)
    requires
        bound > 0,
    ensures
        r < bound,
{
    rng.gen_range(0, bound)
}

} // verus!
