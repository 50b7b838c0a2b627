//! The key exchange itself: private-key sampling within the prime field,
//! public-key and shared-secret derivation, the agreement check, and the
//! orchestration of one full two-party exchange.

use crate::arith::{bit_len, lemma_exchange_commutes, pow_mod};
use crate::bigint::{big_bits, big_eq, big_from_u64, big_lt, big_modpow, big_nat};
use crate::primegen::{generate_prime, generate_random};
use crate::ExchangeError;
use num_bigint::BigUint;
use vstd::prelude::*;

verus! {

/// The fixed group generator of the exchange.
pub const GENERATOR: u64 = 2;

/// Sample a private key of the modulus's bit length until one falls in the
/// open interval `(0, prime)`, giving up after `max_attempts` draws. A
/// sampled value can reach or exceed the modulus, so the retry is needed;
/// any key handed back is strictly between 0 and the modulus.
pub fn generate_private_key(prime: &BigUint, max_attempts: usize) -> (r: Result<
    BigUint,
    ExchangeError,
>)
    requires
        bit_len(big_nat(*prime)) <= usize::MAX - 7,
    ensures
        match r {
            Ok(k) => 0 < big_nat(k) < big_nat(*prime),
            Err(e) => e == ExchangeError::PrivateKeySearchExhausted,
        },
{
    let nbits64 = big_bits(prime);
    let nbits: usize = nbits64 as usize;
    let zero = big_from_u64(0);
    let mut attempt: usize = 0;
    while attempt < max_attempts
        invariant
            big_nat(zero) == 0,
            nbits <= usize::MAX - 7,
            attempt <= max_attempts,
        decreases max_attempts - attempt,
    {
        let key = generate_random(nbits);
        if big_lt(&zero, &key) && big_lt(&key, prime) {
            return Ok(key);
        }
        attempt = attempt + 1;
    }
    Err(ExchangeError::PrivateKeySearchExhausted)
}

/// The public half of a key pair: `generator ^ private_key mod prime`.
pub fn compute_public_key(generator: &BigUint, prime: &BigUint, private_key: &BigUint) -> (r:
    BigUint)
    requires
        big_nat(*prime) > 1,
    ensures
        big_nat(r) == pow_mod(big_nat(*generator), big_nat(*private_key), big_nat(*prime)),
{
    big_modpow(generator, private_key, prime)
}

/// The shared secret one party derives: `public_key ^ private_key mod prime`.
pub fn compute_shared_secret(public_key: &BigUint, prime: &BigUint, private_key: &BigUint) -> (r:
    BigUint)
    requires
        big_nat(*prime) > 1,
    ensures
        big_nat(r) == pow_mod(big_nat(*public_key), big_nat(*private_key), big_nat(*prime)),
{
    big_modpow(public_key, private_key, prime)
}

/// One party of the exchange: a private key strictly inside the field and
/// the public key derived from it.
pub struct Participant {
    pub private_key: BigUint,
    pub public_key: BigUint,
}

impl Participant {
    /// The participant's keys fit modulus `p` and generator `g`: the
    /// private key lies in `(0, p)` and the public key is derived from it.
    pub open spec fn wf(self, g: nat, p: nat) -> bool {
        &&& 0 < big_nat(self.private_key) < p
        &&& big_nat(self.public_key) == pow_mod(g, big_nat(self.private_key), p)
    }

    /// Create a participant against a shared `(modulus, generator)` pair:
    /// sample a private key and derive the public key from it.
    pub fn new(generator: &BigUint, prime: &BigUint, max_attempts: usize) -> (r: Result<
        Participant,
        ExchangeError,
    >)
        requires
            big_nat(*prime) > 1,
            bit_len(big_nat(*prime)) <= usize::MAX - 7,
        ensures
            match r {
                Ok(pt) => pt.wf(big_nat(*generator), big_nat(*prime)),
                Err(e) => e == ExchangeError::PrivateKeySearchExhausted,
            },
    {
        let private_key = match generate_private_key(prime, max_attempts) {
            Ok(k) => k,
            Err(e) => {
                return Err(e);
            },
        };
        let public_key = compute_public_key(generator, prime, &private_key);
        Ok(Participant { private_key, public_key })
    }

    /// The secret this participant derives from the peer's public key.
    pub fn shared_secret(&self, peer_public_key: &BigUint, prime: &BigUint) -> (r: BigUint)
        requires
            big_nat(*prime) > 1,
        ensures
            big_nat(r) == pow_mod(big_nat(*peer_public_key), big_nat(self.private_key), big_nat(
                *prime,
            )),
    {
        compute_shared_secret(peer_public_key, prime, &self.private_key)
    }
}

/// Compare the two parties' secrets: agreement is `Ok`, disagreement is the
/// fatal `SharedSecretMismatch`, never silence.
pub fn verify_agreement(a: &BigUint, b: &BigUint) -> (r: Result<(), ExchangeError>)
    ensures
        r is Ok <==> big_nat(*a) == big_nat(*b),
        r is Err ==> r == Result::<(), ExchangeError>::Err(ExchangeError::SharedSecretMismatch),
{
    if big_eq(a, b) {
        Ok(())
    } else {
        Err(ExchangeError::SharedSecretMismatch)
    }
}

/// The terminal artifact of one exchange session.
pub struct ExchangeOutcome {
    pub modulus: BigUint,
    pub alice_public_key: BigUint,
    pub bob_public_key: BigUint,
    pub shared_secret: BigUint,
}

/// The outcome records one honest exchange over its modulus: an odd
/// modulus of the requested bit length, both public keys derived from
/// private keys inside the field, and a single secret that each side's
/// computation reaches.
pub open spec fn outcome_wf(o: ExchangeOutcome, bit_size: nat) -> bool {
    let p = big_nat(o.modulus);
    &&& bit_len(p) == bit_size
    &&& p % 2 == 1
    &&& p >= 3
    &&& exists|a: nat, b: nat|
        {
            &&& 0 < a < p
            &&& 0 < b < p
            &&& big_nat(o.alice_public_key) == pow_mod(GENERATOR as nat, a, p)
            &&& big_nat(o.bob_public_key) == pow_mod(GENERATOR as nat, b, p)
            &&& big_nat(o.shared_secret) == pow_mod(big_nat(o.bob_public_key), a, p)
            &&& big_nat(o.shared_secret) == pow_mod(big_nat(o.alice_public_key), b, p)
        }
}

/// Run one full exchange: generate the modulus, fix the generator, create
/// both participants, exchange public keys, derive both secrets and check
/// that they agree. The agreement holds by the commutativity of modular
/// exponentiation, so a mismatch is never reported.
pub fn run_exchange(bit_size: usize, max_attempts: usize) -> (r: Result<
    ExchangeOutcome,
    ExchangeError,
>)
    requires
        bit_size <= usize::MAX - 7,
    ensures
        bit_size < 2 <==> r == Result::<ExchangeOutcome, ExchangeError>::Err(
            ExchangeError::InvalidBitSize,
        ),
        match r {
            Ok(o) => outcome_wf(o, bit_size as nat),
            Err(e) => e != ExchangeError::SharedSecretMismatch,
        },
{
    let generator = big_from_u64(GENERATOR);
    let prime = match generate_prime(bit_size, max_attempts) {
        Ok(p) => p,
        Err(e) => {
            return Err(e);
        },
    };
    let alice = match Participant::new(&generator, &prime, max_attempts) {
        Ok(pt) => pt,
        Err(e) => {
            return Err(e);
        },
    };
    let bob = match Participant::new(&generator, &prime, max_attempts) {
        Ok(pt) => pt,
        Err(e) => {
            return Err(e);
        },
    };
    let alice_secret = alice.shared_secret(&bob.public_key, &prime);
    let bob_secret = bob.shared_secret(&alice.public_key, &prime);
    proof {
        lemma_exchange_commutes(
            GENERATOR as nat,
            big_nat(alice.private_key),
            big_nat(bob.private_key),
            big_nat(prime),
        );
    }
    match verify_agreement(&alice_secret, &bob_secret) {
        Ok(_) => {},
        Err(e) => {
            return Err(e);
        },
    }
    let outcome = ExchangeOutcome {
        modulus: prime,
        alice_public_key: alice.public_key,
        bob_public_key: bob.public_key,
        shared_secret: alice_secret,
    };
    proof {
        let p = big_nat(outcome.modulus);
        let a = big_nat(alice.private_key);
        let b = big_nat(bob.private_key);
        assert({
            &&& 0 < a < p
            &&& 0 < b < p
            &&& big_nat(outcome.alice_public_key) == pow_mod(GENERATOR as nat, a, p)
            &&& big_nat(outcome.bob_public_key) == pow_mod(GENERATOR as nat, b, p)
            &&& big_nat(outcome.shared_secret) == pow_mod(big_nat(outcome.bob_public_key), a, p)
            &&& big_nat(outcome.shared_secret) == pow_mod(big_nat(outcome.alice_public_key), b, p)
        });
        assert(outcome_wf(outcome, bit_size as nat));
    }
    Ok(outcome)
}

} // verus!
