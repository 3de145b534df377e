use vstd::prelude::*;
use rand::Rng;
use rand::rngs::StdRng;

verus! {

/// The random generator shared by pipe spawning and breeding.
#[verifier::external_type_specification]
#[verifier::external_body]
pub struct ExStdRng(StdRng);

/// Relies on `rand::Rng::random_range`: on a non-empty range `0..bound` it
/// returns a value of that range (it panics on an empty one).
#[verifier::external_body]
pub(crate) fn random_below(rng: &mut StdRng, bound: u128) -> (r: u128)
    requires
        bound > 0,
    ensures
        r < bound,
{
    rng.random_range(0..bound)
}

} // verus!
