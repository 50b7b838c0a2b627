//! The trusted boundary to `rand`: the two draws of entropy the exchange
//! makes. Nothing is promised of a random value beyond its range.

use rand::Rng;
use vstd::prelude::*;

verus! {

/// Relies on `rand::thread_rng` and `rand::Rng::gen`: one byte, about
/// whose value nothing can be promised.
#[verifier::external_body]
pub(crate) fn random_u8() -> u8 {
    rand::thread_rng().gen()
}

/// Relies on `rand::thread_rng` and `rand::Rng::gen_range` over `0..100`:
/// whatever the entropy source yields, the result is below 100.
#[verifier::external_body]
pub(crate) fn random_witness_offset() -> (r: u64)
    ensures
        r < 100,
{
    rand::thread_rng().gen_range(0..100u64)
}

} // verus!
