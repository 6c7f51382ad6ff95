use vstd::prelude::*;

verus! {

#[verifier::external_type_specification]
#[verifier::external_body]
pub struct ExSmallRng(rand::rngs::SmallRng);

/// Relies on rand's `RngCore::next_u64` for `SmallRng`: it advances the stream
/// and hands back the next word; any `u64` may come back, so nothing more is
/// claimed of the result.
#[verifier::external_body]
pub(crate) fn next_u64(rng: &mut rand::rngs::SmallRng) -> (r: u64) {
    rand::RngCore::next_u64(rng)
}

/// A draw below `bound`, reduced from one word of the stream.
pub(crate) fn below(rng: &mut rand::rngs::SmallRng, bound: u64) -> (r: u64)
    requires
        bound > 0,
    ensures
        r < bound,
{
    next_u64(rng) % bound
}

} // verus!
