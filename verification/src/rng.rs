//! The machine's one source of randomness.

use vstd::prelude::*;

verus! {

/// Relies on rand::thread_rng and rand::Rng::gen_range over the full
/// (never-empty) byte range: some byte comes back, and nothing is promised
/// of it — every caller is verified for every possible value.
#[verifier::external_body]
pub(crate) fn random_byte() -> u8 {
    rand::Rng::gen_range(&mut rand::thread_rng(), 0..=255u8)
}

} // verus!
