//! The renderer's only source of randomness.

use vstd::prelude::*;

verus! {

/// Relies on `rand::random_range` over an `i64` half-open range: it
/// returns a value of that range, drawn from the thread-local generator,
/// and panics only when the range is empty, which the precondition
/// excludes.  Nothing more is promised of the draw.
#[verifier::external_body]
pub fn random_range_i64(lo: i64, hi: i64) -> (r: i64)
    requires
        lo < hi,
    ensures
        lo <= r < hi,
{
    rand::random_range(lo..hi)
}

} // verus!
