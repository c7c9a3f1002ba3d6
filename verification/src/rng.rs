//! Trusted access to the process-wide random number generator used by
//! the scheduler's decisions. Nothing is promised of a single draw
//! beyond its range: every decision downstream is verified for every
//! outcome.
use vstd::prelude::*;

use rand::Rng;

verus! {

/// Relies on rand's `Rng::gen_ratio` on `thread_rng`: a Bernoulli
/// draw that is true with probability numerator/denominator. It
/// panics when the ratio is no probability, so that is required away;
/// of the draw itself nothing can be promised.
#[verifier::external_body]
pub(crate) fn rng_ratio(numerator: u32, denominator: u32) -> bool
    requires
        0 < denominator,
        numerator <= denominator,
{
    rand::thread_rng().gen_ratio(numerator, denominator)
}

/// Relies on rand's `Rng::gen_range` on `thread_rng`: a sample from
/// the half-open range, which panics on an empty range.
#[verifier::external_body]
pub(crate) fn rng_range_i32(low: i32, high: i32) -> (r: i32)
    requires
        low < high,
    ensures
        low <= r < high,
{
    rand::thread_rng().gen_range(low..high)
}

} // verus!
