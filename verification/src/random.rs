//! Draws from the thread-local random generator of the `rand` crate.
use rand::Rng;
use vstd::prelude::*;

verus! {

/// Calls `rand::Rng::gen_range(low..high)` on `rand::thread_rng()`; the range must not be
/// empty (the crate panics on an empty range). The crate documents the result as a sample
/// from the half-open range; which sample comes is left open.
#[verifier::external_body]
pub(crate) fn random_in_range(low: u64, high: u64) -> (r: u64)
    requires
        low < high,
    ensures
        low <= r < high,
{
    rand::thread_rng().gen_range(low..high)
}

/// Calls `rand::Rng::gen_range(0..bound)` on `rand::thread_rng()`; the range must not be
/// empty (the crate panics on an empty range). Which sample comes is left open.
#[verifier::external_body]
pub(crate) fn random_below(bound: usize) -> (r: usize)
    requires
        bound > 0,
    ensures
        r < bound,
{
    rand::thread_rng().gen_range(0..bound)
}

} // verus!
