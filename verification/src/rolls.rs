//! The one place randomness enters the library.
//!
//! Yield rolls, respawn windows and spawn sampling all draw through this
//! wrapper; everything downstream is verified for every value the draw
//! can return.

use vstd::prelude::*;

verus! {

/// Relies on rand's `thread_rng` and `Rng::gen_range` over an inclusive
/// range: the range `lo..=hi` is non-empty for `lo <= hi`, so the call
/// does not panic, and the sampled value lies within the range.  Nothing
/// more is assumed of the draw.
#[verifier::external_body]
pub(crate) fn roll_inclusive(lo: u64, hi: u64) -> (r: u64)
    requires
        lo <= hi,
    ensures
        lo <= r <= hi,
{
    rand::Rng::gen_range(&mut rand::thread_rng(), lo..=hi)
}

} // verus!
