//! Random draws, from the `rand` crate's thread-local generator.
//!
//! Each draw says only what holds of every outcome: it lies in the range asked
//! for. Functions that decide from a draw take it as an argument elsewhere, so
//! what they do is stated for every value of it.

use vstd::prelude::*;
use rand::Rng;

verus! {

/// A uniform index below `n` (`Rng::gen_range(0..n)`, which panics on an
/// empty range). The contract claims only that the result is below `n`.
#[verifier::external_body]
pub(crate) fn random_below(n: usize) -> (r: usize)
    requires
        n > 0,
    ensures
        r < n,
{
    rand::thread_rng().gen_range(0..n)
}

/// A uniform value in `lo..=hi` (`Rng::gen_range(lo..=hi)`, which panics when
/// `lo > hi`). The contract claims only that the result is in the range.
#[verifier::external_body]
pub(crate) fn random_u64_in(lo: u64, hi: u64) -> (r: u64)
    requires
        lo <= hi,
    ensures
        lo <= r <= hi,
{
    rand::thread_rng().gen_range(lo..=hi)
}

/// A uniform value in `lo..=hi` (`Rng::gen_range(lo..=hi)`, which panics when
/// `lo > hi`). The contract claims only that the result is in the range.
#[verifier::external_body]
pub(crate) fn random_i64_in(lo: i64, hi: i64) -> (r: i64)
    requires
        lo <= hi,
    ensures
        lo <= r <= hi,
{
    rand::thread_rng().gen_range(lo..=hi)
}

/// A fair coin (`Rng::gen::<bool>()`). Nothing is claimed of the outcome.
#[verifier::external_body]
pub(crate) fn random_bool() -> (b: bool) {
    rand::thread_rng().gen::<bool>()
}

} // verus!
