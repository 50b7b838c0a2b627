//! A verified two-party Diffie-Hellman key exchange over a randomly
//! generated prime field: Miller-Rabin primality testing, prime and
//! private-key generation, and the modular arithmetic of the exchange.

use vstd::prelude::*;

pub mod arith;
pub mod bigint;
pub mod exchange;
pub mod primality;
pub mod primegen;
mod random;

verus! {

/// The failures the exchange can report.
#[derive(Clone, Copy, Debug, PartialEq, Eq, Structural)]
pub enum ExchangeError {
    /// The requested prime bit length is too small to hold any odd prime.
    InvalidBitSize,
    /// The prime search ran out of its attempt budget.
    PrimeSearchExhausted,
    /// The private-key search ran out of its attempt budget.
    PrivateKeySearchExhausted,
    /// The two participants computed different shared secrets.
    SharedSecretMismatch,
}

} // verus!
