use tinyrand::{Rand, RandRange};
use tinyrand_std::thread_rand;
use vstd::prelude::*;

verus! {

/// Draws an index below `limit` from the thread's generator, by
/// `RandRange::next_range` of `tinyrand` on `tinyrand_std::thread_rand()`.
///
/// Assumed, not proved: the draw lies in `0..limit`. Which index comes is
/// left open. An empty range makes `next_range` panic, so `limit` is positive.
#[verifier::external_body]
pub(crate) fn random_below(limit: usize) -> (index: usize)
    requires
        limit > 0,
    ensures
        index < limit,
{
    thread_rand().next_range(0..limit)
}

/// Draws 32 bits from the thread's generator, by `Rand::next_u32` of
/// `tinyrand` on `tinyrand_std::thread_rand()`. Nothing is assumed of them.
#[verifier::external_body]
pub(crate) fn random_bits() -> (bits: u32) {
    thread_rand().next_u32()
}

} // verus!
