//! Sources of randomness.
//!
//! All randomness enters the crate through the two wrappers here; every
//! caller states what holds of any outcome, never which outcome arrives.

use vstd::prelude::*;

verus! {

/// Relies on rand::random::<u16>: every outcome is a 16-bit value, so the
/// result is a fixed-point fraction in `[0, 1)`.
#[verifier::external_body]
pub fn random_fraction() -> (r: i64)
    ensures
        0 <= r < 65536,
{
    rand::random::<u16>() as i64
}

/// Relies on rand::random_range: the outcome lies in the given inclusive
/// range, which must be nonempty.
#[verifier::external_body]
pub fn random_index(lo: usize, hi: usize) -> (r: usize)
    requires
        lo <= hi,
    ensures
        lo <= r <= hi,
{
    rand::random_range(lo..=hi)
}

} // verus!
