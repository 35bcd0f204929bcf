//! Random sampling, through the `rand` crate.
//!
//! Every use of randomness in the library goes through the two wrappers
//! here. Their contracts state only what holds of every outcome: a bound on
//! the sampled number, and the shape of the sampled string.

use rand::distr::SampleString;
use vstd::prelude::*;

verus! {

/// Relies on `rand::random_range` over `0..n`, which returns a value of the
/// (nonempty) range. Nothing is assumed about which value comes back.
#[verifier::external_body]
pub(crate) fn random_below(n: u64) -> (r: u64)
    requires
        n >= 1,
    ensures
        r < n,
{
    rand::random_range(0..n)
}

/// Relies on `rand::distr::Alphanumeric`'s `SampleString` implementation,
/// which appends exactly `len` ASCII alphanumeric characters to an empty
/// string.
#[verifier::external_body]
pub(crate) fn random_alphanumeric(len: usize) -> (r: String)
    ensures
        r@.len() == len,
        forall|i: int|
            0 <= i < r@.len() ==> (('0' <= #[trigger] r@[i] <= '9') || ('A' <= r@[i] <= 'Z') || (
            'a' <= r@[i] <= 'z')),
{
    rand::distr::Alphanumeric.sample_string(&mut rand::rng(), len)
}

} // verus!
