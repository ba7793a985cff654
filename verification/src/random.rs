//! Random choices, from the thread-local generator of the `rand` crate.

use vstd::prelude::*;
use rand::RngExt;

verus! {

/// `rand::rng().random_range(0..bound)`: a number drawn uniformly below
/// `bound`. The crate panics on an empty range, hence `bound > 0`. Two calls
/// may give different numbers.
#[verifier::external_body]
pub(crate) fn random_below(bound: u64) -> (r: u64)
    requires
        bound > 0,
    ensures
        r < bound,
{
    rand::rng().random_range(0..bound)
}

} // verus!
