//! Prime generation: uniform random sampling of candidates, forcing of the
//! top and bottom bits so that a candidate has exactly the requested bit
//! length and is odd, and the bounded search for a probable prime.

use crate::arith::{
    be_val, bit_len, lemma_be_val_bound, lemma_be_val_first, lemma_be_val_parity,
    lemma_bit_len_exact,
};
use crate::bigint::{big_from_bytes_be, big_nat};
use crate::primality::is_probable_prime;
use crate::random::random_u8;
use crate::ExchangeError;
use num_bigint::BigUint;
use vstd::arithmetic::div_mod::lemma_fundamental_div_mod;
use vstd::arithmetic::mul::lemma_mul_inequality;
use vstd::arithmetic::power2::{
    lemma2_to64, lemma_pow2_adds, lemma_pow2_pos, lemma_pow2_strictly_increases,
    lemma_pow2_unfold, pow2,
};
use vstd::prelude::*;

verus! {

/// The number of Miller-Rabin rounds each prime candidate must pass.
pub const PRIME_TRIALS: usize = 10;

/// `2^e` for the small exponents that fit a single byte's bit positions.
fn pow2_u16(e: usize) -> (r: u16)
    requires
        e <= 8,
    ensures
        r as nat == pow2(e as nat),
{
    let mut r: u16 = 1;
    let mut i: usize = 0;
    proof {
        lemma2_to64();
    }
    while i < e
        invariant
            i <= e,
            e <= 8,
            r as nat == pow2(i as nat),
        decreases e - i,
    {
        proof {
            lemma2_to64();
            if (i as nat) < 8 {
                lemma_pow2_strictly_increases(i as nat, 8);
            }
            lemma_pow2_unfold((i + 1) as nat);
        }
        r = r * 2;
        i = i + 1;
    }
    r
}

/// A uniformly random value of `bit_size` bits' worth of whole bytes: the
/// raw sampler behind both candidate and private-key generation.
pub fn generate_random(bit_size: usize) -> (r: BigUint)
    requires
        bit_size <= usize::MAX - 7,
    ensures
        big_nat(r) < pow2((8 * ((bit_size + 7) / 8)) as nat),
{
    let nbytes: usize = (bit_size + 7) / 8;
    let mut bytes: Vec<u8> = Vec::new();
    let mut i: usize = 0;
    while i < nbytes
        invariant
            i <= nbytes,
            bytes@.len() == i,
        decreases nbytes - i,
    {
        bytes.push(random_u8());
        i = i + 1;
    }
    proof {
        lemma_be_val_bound(bytes@);
    }
    big_from_bytes_be(&bytes)
}

/// A random candidate of exactly `bit_size` bits: sample whole bytes, then
/// force the top bit of the requested width and the lowest bit, so the
/// value is odd and has the requested bit length.
pub fn random_odd_candidate(bit_size: usize) -> (r: BigUint)
    requires
        2 <= bit_size,
        bit_size <= usize::MAX - 7,
    ensures
        bit_len(big_nat(r)) == bit_size,
        big_nat(r) % 2 == 1,
        big_nat(r) >= 3,
{
    let nbytes: usize = (bit_size + 7) / 8;
    proof {
        lemma_fundamental_div_mod((bit_size + 7) as int, 8);
        assert(1 <= nbytes);
        assert(8 * (nbytes - 1) < bit_size <= 8 * nbytes);
    }
    let top_bits: usize = bit_size - 8 * (nbytes - 1);
    let mut bytes: Vec<u8> = Vec::new();
    let mut i: usize = 0;
    while i < nbytes
        invariant
            i <= nbytes,
            bytes@.len() == i,
        decreases nbytes - i,
    {
        bytes.push(random_u8());
        i = i + 1;
    }
    // force the candidate into [2^(bit_size-1), 2^bit_size) by pinning the
    // top byte inside its window of top_bits bits
    let m: u16 = pow2_u16(top_bits);
    let half: u16 = m / 2;
    proof {
        lemma_pow2_unfold(top_bits as nat);
        assert(half as nat == pow2((top_bits - 1) as nat));
        lemma_pow2_pos((top_bits - 1) as nat);
        if (top_bits as nat) < 8 {
            lemma_pow2_strictly_increases(top_bits as nat, 8);
        }
        lemma2_to64();
        assert(m <= 256);
    }
    let b0: u16 = bytes[0] as u16 % m;
    let forced: u16 = if b0 >= half {
        b0
    } else {
        b0 + half
    };
    bytes[0] = forced as u8;
    // force the candidate odd
    let last: usize = nbytes - 1;
    let lb: u8 = bytes[last];
    if lb % 2 == 0 {
        bytes[last] = lb + 1;
    }
    let ghost s = bytes@;
    proof {
        assert(s.len() == nbytes);
        assert(half as nat <= s[0] as nat && (s[0] as nat) < m as nat);
        assert(pow2((top_bits - 1) as nat) <= s[0] as nat);
        assert((s[0] as nat) < pow2(top_bits as nat));
        assert(s.last() as nat % 2 == 1);
        lemma_be_val_first(s);
        lemma_be_val_bound(s.subrange(1, s.len() as int));
        let p = pow2((8 * (nbytes - 1)) as nat);
        let rest = be_val(s.subrange(1, s.len() as int));
        assert(be_val(s) == s[0] * p + rest && rest < p);
        // lower bound: the top byte alone reaches 2^(bit_size-1)
        lemma_pow2_pos((8 * (nbytes - 1)) as nat);
        lemma_mul_inequality(pow2((top_bits - 1) as nat) as int, s[0] as int, p as int);
        lemma_pow2_adds((top_bits - 1) as nat, (8 * (nbytes - 1)) as nat);
        assert(pow2((bit_size - 1) as nat) <= be_val(s));
        // upper bound: the top byte stays under 2^top_bits
        lemma_mul_inequality((s[0] + 1) as int, pow2(top_bits as nat) as int, p as int);
        lemma_pow2_adds(top_bits as nat, (8 * (nbytes - 1)) as nat);
        assert((s[0] * p + p) == (s[0] + 1) * p) by (nonlinear_arith);
        assert(be_val(s) < pow2(bit_size as nat));
        lemma_bit_len_exact(be_val(s), bit_size as nat);
        // parity comes from the last byte alone
        lemma_be_val_parity(s);
        // an odd value of at least 2 bits is at least 3
        lemma_pow2_pos((bit_size - 2) as nat);
        lemma_pow2_unfold((bit_size - 1) as nat);
        assert(be_val(s) >= 2);
    }
    big_from_bytes_be(&bytes)
}

/// Search for a probable prime of exactly `bit_size` bits, testing up to
/// `max_attempts` random odd candidates with `PRIME_TRIALS` Miller-Rabin
/// rounds each. A bit length below 2 admits no odd prime and is rejected
/// outright; an exhausted budget is reported rather than looping forever.
pub fn generate_prime(bit_size: usize, max_attempts: usize) -> (r: Result<
    BigUint,
    ExchangeError,
>)
    requires
        bit_size <= usize::MAX - 7,
    ensures
        bit_size < 2 <==> r == Result::<BigUint, ExchangeError>::Err(
            ExchangeError::InvalidBitSize,
        ),
        match r {
            Ok(p) => bit_len(big_nat(p)) == bit_size && big_nat(p) % 2 == 1 && big_nat(p) >= 3,
            Err(e) => e == ExchangeError::InvalidBitSize || e == ExchangeError::PrimeSearchExhausted,
        },
{
    if bit_size < 2 {
        return Err(ExchangeError::InvalidBitSize);
    }
    let mut attempt: usize = 0;
    while attempt < max_attempts
        invariant
            2 <= bit_size,
            bit_size <= usize::MAX - 7,
            attempt <= max_attempts,
        decreases max_attempts - attempt,
    {
        let candidate = random_odd_candidate(bit_size);
        if is_probable_prime(&candidate, PRIME_TRIALS) {
            return Ok(candidate);
        }
        attempt = attempt + 1;
    }
    Err(ExchangeError::PrimeSearchExhausted)
}

} // verus!
