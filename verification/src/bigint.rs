//! The trusted boundary to `num_bigint`: the `BigUint` type is declared
//! opaque, `big_nat` names the natural number such a value holds, and each
//! arithmetic operation the exchange needs is wrapped with a contract that
//! states what `num_bigint` documents for it.

use crate::arith::{be_val, bit_len, pow_mod};
use num_bigint::BigUint;
use num_integer::Integer;
use vstd::prelude::*;

verus! {

#[verifier::external_type_specification]
#[verifier::external_body]
pub struct ExBigUint(BigUint);

/// The natural number that a `BigUint` value holds.
pub uninterp spec fn big_nat(n: BigUint) -> nat;

/// Relies on `<BigUint as From<u64>>::from`: the constructed value is `v`.
#[verifier::external_body]
pub(crate) fn big_from_u64(v: u64) -> (r: BigUint)
    ensures
        big_nat(r) == v as nat,
{
    BigUint::from(v)
}

/// Relies on `BigUint::from_bytes_be`: the bytes are read as one
/// big-endian base-256 numeral.
#[verifier::external_body]
pub(crate) fn big_from_bytes_be(bytes: &Vec<u8>) -> (r: BigUint)
    ensures
        big_nat(r) == be_val(bytes@),
{
    BigUint::from_bytes_be(bytes.as_slice())
}

/// Relies on `<BigUint as PartialEq>::eq`: equal exactly when the held
/// values are equal.
#[verifier::external_body]
pub(crate) fn big_eq(a: &BigUint, b: &BigUint) -> (r: bool)
    ensures
        r == (big_nat(*a) == big_nat(*b)),
{
    a == b
}

/// Relies on `<BigUint as PartialOrd>::lt`: ordered as the held values are.
#[verifier::external_body]
pub(crate) fn big_lt(a: &BigUint, b: &BigUint) -> (r: bool)
    ensures
        r == (big_nat(*a) < big_nat(*b)),
{
    a < b
}

/// Relies on `<BigUint as num_integer::Integer>::is_even`.
#[verifier::external_body]
pub(crate) fn big_is_even(n: &BigUint) -> (r: bool)
    ensures
        r == (big_nat(*n) % 2 == 0),
{
    n.is_even()
}

/// Relies on `<&BigUint as core::ops::Shr<u32>>::shr`: shifting right by
/// one halves the value, rounding down.
#[verifier::external_body]
pub(crate) fn big_half(n: &BigUint) -> (r: BigUint)
    ensures
        big_nat(r) == big_nat(*n) / 2,
{
    n >> 1u32
}

/// Relies on `<&BigUint as core::ops::Sub<u32>>::sub`, which panics on
/// underflow; the positivity precondition rules that out.
#[verifier::external_body]
pub(crate) fn big_sub_one(n: &BigUint) -> (r: BigUint)
    requires
        big_nat(*n) > 0,
    ensures
        big_nat(r) == big_nat(*n) - 1,
{
    n - 1u32
}

/// Relies on `BigUint::bits`: the fewest bits needed to express the value,
/// and 0 for the value 0.
#[verifier::external_body]
pub(crate) fn big_bits(n: &BigUint) -> (r: u64)
    ensures
        r as nat == bit_len(big_nat(*n)),
{
    n.bits()
}

/// Relies on `BigUint::modpow`: `(base ^ exponent) % modulus`. It panics on
/// a zero modulus; a modulus of at least 2 is demanded here.
#[verifier::external_body]
pub(crate) fn big_modpow(base: &BigUint, exponent: &BigUint, modulus: &BigUint) -> (r: BigUint)
    requires
        big_nat(*modulus) > 1,
    ensures
        big_nat(r) == pow_mod(big_nat(*base), big_nat(*exponent), big_nat(*modulus)),
{
    base.modpow(exponent, modulus)
}

} // verus!
