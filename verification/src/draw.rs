//! Random draws, from the `rand` crate.

use vstd::prelude::*;

verus! {

/// A number drawn at random from `lo..hi`: `rand::Rng::gen_range` on the
/// thread-local generator of `rand::thread_rng`.  The contract claims only
/// that the number lies in the range, which `gen_range` documents; it panics
/// on an empty range, which `requires` leaves out.
#[verifier::external_body]
pub(crate) fn draw_in_range(lo: u32, hi: u32) -> (r: u32)
    requires
        lo < hi,
    ensures
        lo <= r < hi,
{
    rand::Rng::gen_range(&mut rand::thread_rng(), lo..hi)
}

} // verus!
