//! The library's one source of randomness.

use vstd::prelude::*;
use rand::Rng;

verus! {

/// Relies on `rand::Rng::gen_range`, which draws a value uniformly from
/// the half-open range `lo..hi` and panics only when the range is empty.
#[verifier::external_body]
pub(crate) fn rand_raw_in(lo: i128, hi: i128) -> (r: i128)
    requires
        lo < hi,
    ensures
        lo <= r < hi,
{
    rand::thread_rng().gen_range(lo..hi)
}

} // verus!
