use vstd::prelude::*;
use rand::rngs::StdRng;
use rand::Rng;

verus! {

/// rand's seedable standard generator, carried through as an opaque value.
#[verifier::external_type_specification]
#[verifier::external_body]
pub struct ExStdRng(rand::rngs::StdRng);

/// Relies on rand's `Rng::random_ratio`: a Bernoulli draw with probability
/// `numerator / denominator`, certainly `false` for a zero numerator and
/// certainly `true` when the two are equal; it panics only for a zero
/// denominator or a numerator above the denominator.
#[verifier::external_body]
pub(crate) fn draw_ratio(rng: &mut StdRng, numerator: u32, denominator: u32) -> (r: bool)
    requires
        0 < denominator,
        numerator <= denominator,
    ensures
        numerator == 0 ==> !r,
        numerator == denominator ==> r,
{
    rng.random_ratio(numerator, denominator)
}

/// Relies on rand's `Rng::random_range` on a half-open `i64` range: a value
/// in `[low, high)`; it panics only on an empty range.
#[verifier::external_body]
pub(crate) fn draw_range(rng: &mut StdRng, low: i64, high: i64) -> (r: i64)
    requires
        low < high,
    ensures
        low <= r < high,
{
    rng.random_range(low..high)
}

} // verus!
