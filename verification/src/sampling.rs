//! The one random primitive the simulator needs: a uniform draw from a
//! bounded integer range.

use vstd::prelude::*;

verus! {

/// Relies on `rand::random_range` over `0..n`: a uniform draw that is
/// always strictly inside the (non-empty) range.  Nothing more can be
/// promised of a random value.
#[verifier::external_body]
pub fn rand_below(n: u64) -> (r: u64)
    requires
        0 < n,
    ensures
        r < n,
{
    rand::random_range(0..n)
}

} // verus!
