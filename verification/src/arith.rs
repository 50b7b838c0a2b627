//! The mathematical model of the exchange: modular exponentiation over
//! naturals, big-endian byte values, bit lengths, and the odd/power-of-two
//! decomposition that the Miller-Rabin test is built on.

use vstd::arithmetic::div_mod::*;
use vstd::arithmetic::mul::*;
use vstd::arithmetic::power::*;
use vstd::arithmetic::power2::*;
use vstd::prelude::*;

verus! {

/// `b^e mod m`, the operation the whole exchange is built on.
pub open spec fn pow_mod(b: nat, e: nat, m: nat) -> nat
    recommends
        m > 0,
{
    (pow(b as int, e) % (m as int)) as nat
}

/// The natural number that a big-endian byte string denotes.
pub open spec fn be_val(s: Seq<u8>) -> nat
    decreases s.len(),
{
    if s.len() == 0 {
        0
    } else {
        be_val(s.drop_last()) * 256 + s.last() as nat
    }
}

/// The fewest bits needed to write `n`: 0 for 0, and otherwise the
/// unique `k` with `2^(k-1) <= n < 2^k`.
pub open spec fn bit_len(n: nat) -> nat
    decreases n,
{
    if n == 0 {
        0
    } else {
        1 + bit_len(n / 2)
    }
}

/// The odd factor `d` of `n == d * 2^s`.
pub open spec fn odd_part(n: nat) -> nat
    decreases n,
{
    if n == 0 {
        0
    } else if n % 2 == 1 {
        n
    } else {
        odd_part(n / 2)
    }
}

/// The exponent `s` of `n == d * 2^s` with `d` odd.
pub open spec fn two_adic(n: nat) -> nat
    decreases n,
{
    if n == 0 {
        0
    } else if n % 2 == 1 {
        0
    } else {
        1 + two_adic(n / 2)
    }
}

/// One Miller-Rabin round on odd `n >= 3` with witness `a` passes: with
/// `n - 1 == d * 2^s` and `d` odd, either `a^d == 1 (mod n)`, or
/// `a^(d * 2^i) == n - 1 (mod n)` for some `i < s`.
pub open spec fn mr_round_passes(n: nat, a: nat) -> bool
    recommends
        n >= 3,
        n % 2 == 1,
{
    let d = odd_part((n - 1) as nat);
    let s = two_adic((n - 1) as nat);
    pow_mod(a, d, n) == 1 || (exists|i: nat| i < s && pow_mod(a, d * pow2(i), n) == (n - 1) as nat)
}

/// A power of a natural number is never negative.
pub proof fn lemma_pow_nat_nonneg(b: nat, e: nat)
    ensures
        pow(b as int, e) >= 0,
{
    if b == 0 {
        if e == 0 {
            lemma_pow0(0);
        } else {
            lemma0_pow(e);
        }
    } else {
        lemma_pow_positive(b as int, e);
    }
}

/// Squaring under the modulus doubles the exponent:
/// `(a^e mod m)^2 mod m == a^(2e) mod m`.
pub proof fn lemma_pow_mod_square(a: nat, e: nat, m: nat)
    requires
        m > 0,
    ensures
        pow_mod(pow_mod(a, e, m), 2, m) == pow_mod(a, 2 * e, m),
{
    lemma_pow_nat_nonneg(a, e);
    lemma_mod_bound(pow(a as int, e), m as int);
    lemma_pow_mod_noop(pow(a as int, e), 2, m as int);
    lemma_pow_multiplies(a as int, e, 2);
}

/// Once the running power hits 1 modulo `m`, every further squaring
/// leaves it at 1.
pub proof fn lemma_pow_mod_one_stays(a: nat, e: nat, m: nat, k: nat)
    requires
        m > 1,
        pow_mod(a, e, m) == 1,
    ensures
        pow_mod(a, e * pow2(k), m) == 1,
    decreases k,
{
    if k == 0 {
        assert(pow2(0) == 1) by {
            lemma2_to64();
        }
        assert(e * pow2(0) == e);
    } else {
        let k1 = (k - 1) as nat;
        lemma_pow_mod_one_stays(a, e, m, k1);
        lemma_pow_mod_square(a, e * pow2(k1), m);
        assert(pow_mod(1, 2, m) == 1) by {
            lemma1_pow(2);
            lemma_small_mod(1, m);
        }
        assert(pow_mod(a, 2 * (e * pow2(k1)), m) == 1);
        lemma_pow2_unfold(k);
        assert(e * pow2(k) == 2 * (e * pow2(k1))) by (nonlinear_arith)
            requires
                pow2(k) == 2 * pow2(k1),
        ;
    }
}

/// The law behind the exchange: raising `g` to two exponents in either
/// order, reducing modulo `p` in between, gives the same result.
pub proof fn lemma_exchange_commutes(g: nat, a: nat, b: nat, p: nat)
    requires
        p > 0,
    ensures
        pow_mod(pow_mod(g, a, p), b, p) == pow_mod(pow_mod(g, b, p), a, p),
{
    lemma_pow_nat_nonneg(g, a);
    lemma_pow_nat_nonneg(g, b);
    lemma_mod_bound(pow(g as int, a), p as int);
    lemma_mod_bound(pow(g as int, b), p as int);
    lemma_pow_mod_noop(pow(g as int, a), b, p as int);
    lemma_pow_mod_noop(pow(g as int, b), a, p as int);
    lemma_pow_multiplies(g as int, a, b);
    lemma_pow_multiplies(g as int, b, a);
    lemma_mul_is_commutative(a as int, b as int);
}

/// `bit_len` brackets its argument between two powers of two.
pub proof fn lemma_bit_len_bounds(n: nat)
    ensures
        n < pow2(bit_len(n)),
        n > 0 ==> pow2((bit_len(n) - 1) as nat) <= n,
    decreases n,
{
    if n == 0 {
        assert(pow2(0) == 1) by {
            lemma2_to64();
        }
    } else {
        lemma_bit_len_bounds(n / 2);
        lemma_pow2_unfold(bit_len(n));
        if n / 2 > 0 {
            lemma_pow2_unfold((bit_len(n) - 1) as nat);
        } else {
            assert(n == 1);
            assert(pow2(0) == 1 && pow2(1) == 2) by {
                lemma2_to64();
            }
        }
    }
}

/// A number strictly between consecutive powers of two has exactly `k` bits.
pub proof fn lemma_bit_len_exact(n: nat, k: nat)
    requires
        k > 0,
        pow2((k - 1) as nat) <= n,
        n < pow2(k),
    ensures
        bit_len(n) == k,
    decreases k,
{
    if k == 1 {
        assert(pow2(0) == 1 && pow2(1) == 2) by {
            lemma2_to64();
        }
        assert(n == 1);
        assert(bit_len(0) == 0);
        assert(bit_len(1) == 1);
    } else {
        lemma_pow2_unfold(k);
        lemma_pow2_unfold((k - 1) as nat);
        lemma_pow2_pos((k - 2) as nat);
        lemma_pow2_pos((k - 1) as nat);
        assert(pow2((k - 2) as nat) <= n / 2 && n / 2 < pow2((k - 1) as nat));
        lemma_bit_len_exact(n / 2, (k - 1) as nat);
        assert(n > 0);
        assert(bit_len(n) == 1 + bit_len(n / 2));
    }
}

/// `bit_len` is monotone.
pub proof fn lemma_bit_len_mono(a: nat, b: nat)
    requires
        a <= b,
    ensures
        bit_len(a) <= bit_len(b),
    decreases b,
{
    if a > 0 {
        lemma_bit_len_mono(a / 2, b / 2);
    }
}

/// A strict inequality between powers of two carries over to the exponents.
pub proof fn lemma_pow2_lt_implies_lt(e1: nat, e2: nat)
    requires
        pow2(e1) < pow2(e2),
    ensures
        e1 < e2,
{
    if e1 >= e2 {
        if e1 > e2 {
            lemma_pow2_strictly_increases(e2, e1);
        }
        assert(false);
    }
}

/// A big-endian byte string of length `l` denotes a value below `2^(8l)`.
pub proof fn lemma_be_val_bound(s: Seq<u8>)
    ensures
        be_val(s) < pow2(8 * s.len()),
    decreases s.len(),
{
    if s.len() == 0 {
        assert(pow2(0) == 1) by {
            lemma2_to64();
        }
    } else {
        lemma_be_val_bound(s.drop_last());
        let p = pow2(8 * (s.len() - 1) as nat);
        assert(pow2(8 * s.len()) == p * 256) by {
            lemma_pow2_adds(8 * (s.len() - 1) as nat, 8);
            assert(pow2(8) == 256) by {
                lemma2_to64();
            }
        }
        assert(be_val(s.drop_last()) * 256 + 256 <= p * 256) by (nonlinear_arith)
            requires
                be_val(s.drop_last()) < p,
        ;
    }
}

/// The leading byte contributes its value times `2^(8(l-1))`.
pub proof fn lemma_be_val_first(s: Seq<u8>)
    requires
        s.len() > 0,
    ensures
        be_val(s) == s[0] * pow2(8 * (s.len() - 1) as nat) + be_val(s.subrange(1, s.len() as int)),
    decreases s.len(),
{
    if s.len() == 1 {
        assert(s.drop_last().len() == 0);
        assert(s.subrange(1, 1).len() == 0);
        assert(pow2(0) == 1) by {
            lemma2_to64();
        }
        assert(be_val(s.drop_last()) == 0);
        assert(be_val(s.subrange(1, 1)) == 0);
        assert(be_val(s) == s.last() as nat);
        assert(s[0] == s.last());
    } else {
        let dl = s.drop_last();
        let t = s.subrange(1, s.len() as int);
        lemma_be_val_first(dl);
        assert(dl.subrange(1, dl.len() as int) =~= t.drop_last());
        assert(t.last() == s.last());
        let p1 = pow2(8 * (dl.len() - 1) as nat);
        let p = pow2(8 * (s.len() - 1) as nat);
        assert(p == p1 * 256) by {
            lemma_pow2_adds(8 * (dl.len() - 1) as nat, 8);
            assert(pow2(8) == 256) by {
                lemma2_to64();
            }
        }
        assert(be_val(dl) == s[0] * p1 + be_val(t.drop_last()));
        assert((s[0] * p1 + be_val(t.drop_last())) * 256 == s[0] * (p1 * 256) + be_val(
            t.drop_last(),
        ) * 256) by (nonlinear_arith);
        assert(be_val(s) == s[0] * p + be_val(t));
    }
}

/// A big-endian value has the parity of its last byte.
pub proof fn lemma_be_val_parity(s: Seq<u8>)
    requires
        s.len() > 0,
    ensures
        be_val(s) % 2 == s.last() % 2,
{
    let v = be_val(s.drop_last());
    assert(v * 256 == (v * 128) * 2) by (nonlinear_arith);
    lemma_mod_multiples_basic((v * 128) as int, 2);
    lemma_add_mod_noop((v * 256) as int, s.last() as int, 2);
    lemma_small_mod((s.last() % 2) as nat, 2);
}

/// Raising anything to the zeroth power modulo `p > 1` gives 1.
pub proof fn lemma_pow_mod_identity(g: nat, p: nat)
    requires
        p > 1,
    ensures
        pow_mod(g, 0, p) == 1,
{
    lemma_pow0(g as int);
    lemma_small_mod(1, p);
}

} // verus!
