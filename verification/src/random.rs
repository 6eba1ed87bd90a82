//! Random choices, drawn from the generator that `rand` keeps for the current thread.
use vstd::prelude::*;
use rand::Rng;

verus! {

/// Calls `Rng::gen_range` of `rand` on the thread's generator with the range `0..bound`.
/// The contract claims only what holds of every draw: the number lies below `bound`. An
/// empty range makes `gen_range` panic, so `bound` must be positive. The generator is
/// seeded from the operating system when a thread first asks for it, and `rand` panics if
/// that fails; nothing here rules that out.
#[verifier::external_body]
pub(crate) fn random_below(bound: usize) -> (n: usize)
    requires
        bound > 0,
    ensures
        n < bound,
{
    rand::thread_rng().gen_range(0..bound)
}

/// Calls `Rng::gen_ratio` of `rand` on the thread's generator: true with a chance of
/// `numerator` in `denominator`. Nothing is claimed of the outcome. `gen_ratio` panics on a
/// zero denominator and on a numerator above the denominator, so both are ruled out.
#[verifier::external_body]
pub(crate) fn random_ratio(numerator: u32, denominator: u32) -> (hit: bool)
    requires
        0 < denominator,
        numerator <= denominator,
{
    rand::thread_rng().gen_ratio(numerator, denominator)
}

} // verus!
