//! The two points where the simulation draws on the process-wide sources of
//! randomness: fresh entity identities and uniform spawn values.

use vstd::prelude::*;

verus! {

/// Relies on `uuid::Uuid::new_v4` (and `Uuid::as_u128`): a freshly generated
/// random 128-bit identity. Nothing is promised of the value.
#[verifier::external_body]
pub fn fresh_id() -> u128 {
    uuid::Uuid::new_v4().as_u128()
}

/// Relies on `rand::random_range`: a value sampled uniformly from the given
/// half-open range. The call panics on an empty range, so `n` must be
/// positive; the sample is always inside the range.
#[verifier::external_body]
pub fn random_below(n: i64) -> (r: i64)
    requires
        n > 0,
    ensures
        0 <= r < n,
{
    rand::random_range(0..n)
}

} // verus!
