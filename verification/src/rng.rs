//! Random draws for the stochastic parts of the generator.
//!
//! Randomness is threaded explicitly: a seedable generator is created
//! from a caller-supplied seed, and every draw goes through one wrapper
//! whose contract states only the range of the value drawn.  Nothing
//! else is assumed of the generator.

use vstd::prelude::*;

verus! {

/// The rand crate's standard seedable generator.
#[verifier::external_type_specification]
#[verifier::external_body]
pub struct ExStdRng(rand::rngs::StdRng);

/// Relies on rand's `SeedableRng::seed_from_u64` for `StdRng`: builds a
/// generator from a seed.  Nothing is assumed about the state built.
#[verifier::external_body]
pub(crate) fn rng_from_seed(seed: u64) -> rand::rngs::StdRng {
    <rand::rngs::StdRng as rand::SeedableRng>::seed_from_u64(seed)
}

/// Relies on rand's `Rng::gen_range` over the half-open range
/// `0..bound`: the value returned lies below `bound`.  The range is
/// nonempty, so the call cannot panic.
#[verifier::external_body]
pub(crate) fn draw_below(rng: &mut rand::rngs::StdRng, bound: u64) -> (r: u64)
    requires
        bound >= 1,
    ensures
        r < bound,
{
    rand::Rng::gen_range(rng, 0..bound)
}

} // verus!
