//! Randomness for the mutation and selection operators.
//!
//! All random draws in the engine go through a single trusted wrapper around
//! the `rand` crate; everything built on top of it is verified for every
//! value the wrapper may return.

use vstd::prelude::*;
use rand::Rng;

verus! {

use crate::fixed::FP_ONE;

/// Relies on `rand::rng` and `rand::Rng::random_range` over the integer
/// range `0..n`: the result is drawn from `[0, n)`. The call panics on an
/// empty range, which the precondition excludes; like any use of the
/// thread-local generator, it can also abort if the operating system fails
/// to supply entropy at first initialization. Nothing more is promised of
/// the result: it depends on the thread's generator state.
#[verifier::external_body]
pub(crate) fn rand_below(n: u64) -> (r: u64)
    requires
        n > 0,
    ensures
        r < n,
{
    rand::rng().random_range(0..n)
}

/// A uniformly random index below `len`.
pub(crate) fn rand_index(len: usize) -> (r: usize)
    requires
        len > 0,
    ensures
        r < len,
{
    let r = rand_below(len as u64);
    r as usize
}

/// A uniformly random fixed-point value in `[lo, hi)`.
pub(crate) fn rand_fp_range(lo: i64, hi: i64) -> (r: i64)
    requires
        lo < hi,
        -100 * FP_ONE <= lo,
        hi <= 100 * FP_ONE,
    ensures
        lo <= r < hi,
{
    let span = (hi - lo) as u64;
    let draw = rand_below(span);
    lo + draw as i64
}

/// True with probability `chance` (a fixed-point value in `[0, FP_ONE]`):
/// a uniform draw from `[0, FP_ONE)` is compared against the threshold.
pub(crate) fn rand_chance(chance: i64) -> bool
    requires
        0 <= chance <= FP_ONE,
{
    let draw = rand_below(FP_ONE as u64);
    (draw as i64) < chance
}

} // verus!
