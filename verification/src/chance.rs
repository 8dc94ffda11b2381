//! The random draws the model makes, over `rand`'s standard generator.
//!
//! What a draw returns depends on the generator's hidden state, so the
//! contracts here state only what holds of every outcome.

use vstd::prelude::*;
use rand::rngs::StdRng;
use rand::RngExt;

verus! {

/// `rand`'s standard generator; the model only hands it to the draws below.
#[verifier::external_type_specification]
#[verifier::external_body]
pub struct ExStdRng(StdRng);

/// Calls `RngExt::random_range` on the half-open range `0..bound`.
/// `rand` documents that the value lies in the range and that an empty range
/// panics, which `requires` rules out; which value comes is left unsaid.
#[verifier::external_body]
pub(crate) fn random_below(rng: &mut StdRng, bound: u32) -> (value: u32)
    requires
        bound > 0,
    ensures
        value < bound,
{
    rng.random_range(0..bound)
}

/// Calls `RngExt::random_ratio`: `true` with probability
/// `numerator / denominator`. `rand` documents that it panics when the
/// denominator is zero or the numerator exceeds it (ruled out by `requires`),
/// that a zero numerator always gives `false` and that a numerator equal to the
/// denominator always gives `true`; any other outcome is left unsaid.
#[verifier::external_body]
pub(crate) fn random_ratio(rng: &mut StdRng, numerator: u32, denominator: u32) -> (hit: bool)
    requires
        0 < denominator,
        numerator <= denominator,
    ensures
        numerator == 0 ==> !hit,
        numerator == denominator ==> hit,
{
    rng.random_ratio(numerator, denominator)
}

} // verus!
