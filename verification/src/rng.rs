//! Randomness, taken from the process-wide generator of the `rand` crate.
//!
//! Nothing useful can be promised of a random value, so the contracts here
//! state only what holds of every outcome.

use vstd::prelude::*;

verus! {

/// Relies on `rand::Rng::gen` on the thread-local generator: draws 16
/// uniformly random bytes. No outcome can be ruled out, so nothing is
/// promised of the value.
#[verifier::external_body]
pub(crate) fn random_bytes_16() -> (r: [u8; 16]) {
    rand::Rng::gen(&mut rand::thread_rng())
}

/// Relies on `rand::Rng::gen_range` on the range `0..n`: draws a uniformly
/// random value below `n`. It panics only on an empty range, which the
/// precondition rules out.
#[verifier::external_body]
pub(crate) fn random_index(n: usize) -> (r: usize)
    requires
        1 <= n,
    ensures
        r < n,
{
    rand::Rng::gen_range(&mut rand::thread_rng(), 0..n)
}

} // verus!
