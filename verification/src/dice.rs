//! The random number generator that every random decision of the game draws
//! from: `rand`'s `StdRng`.

use rand::Rng;
use rand::SeedableRng;
use rand::rngs::StdRng;
use vstd::prelude::*;

verus! {

#[verifier::external_type_specification]
#[verifier::external_body]
pub struct ExStdRng(rand::rngs::StdRng);

/// Calls `rand::Rng::gen_range(lo..hi)` on the generator. The contract claims
/// only what `gen_range` documents for every outcome: the value lies in
/// `lo..hi`. Which value comes out, and how the generator's state moves, is
/// left unsaid. `gen_range` panics on an empty range, so `lo < hi` is required.
#[verifier::external_body]
pub(crate) fn draw(rng: &mut StdRng, lo: usize, hi: usize) -> (r: usize)
    requires
        lo < hi,
    ensures
        lo <= r < hi,
{
    rng.gen_range(lo..hi)
}

/// Calls `rand::SeedableRng::from_entropy` for `StdRng`: a generator seeded
/// from the operating system. Nothing is claimed of the generator; the call
/// panics only when the operating system cannot provide entropy.
#[verifier::external_body]
pub(crate) fn entropy_rng() -> StdRng {
    StdRng::from_entropy()
}

} // verus!
