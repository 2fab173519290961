//! Random choices, drawn from the `rand` crate.

use vstd::prelude::*;
use rand::distr::{Alphanumeric, SampleString};

verus! {

/// Tosses a fair coin with `rand::random`. Nothing is claimed of the outcome: it rests on
/// chance alone.
#[verifier::external_body]
pub(crate) fn coin_toss() -> bool {
    rand::random::<bool>()
}

/// `rand::random_range` on an inclusive range: some number of the range.
#[verifier::external_body]
pub(crate) fn random_between(low: u64, high: u64) -> (n: u64)
    requires
        low <= high,
    ensures
        low <= n <= high,
{
    rand::random_range(low..=high)
}

/// An ASCII letter or digit.
pub open spec fn alphanumeric(c: char) -> bool {
    'a' <= c <= 'z' || 'A' <= c <= 'Z' || '0' <= c <= '9'
}

/// `rand::distr::SampleString::sample_string` on `Alphanumeric`: as many letters and digits as
/// asked for.
#[verifier::external_body]
pub(crate) fn random_text(len: usize) -> (text: String)
    ensures
        text@.len() == len,
        forall|i: int| 0 <= i < len ==> alphanumeric(#[trigger] text@[i]),
{
    Alphanumeric.sample_string(&mut rand::rng(), len)
}

} // verus!
