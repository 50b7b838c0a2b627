//! Probabilistic primality testing: a fully verified Miller-Rabin round,
//! and the trial loop that draws random witnesses for it.

use crate::arith::{
    bit_len, lemma_bit_len_bounds, lemma_bit_len_mono, lemma_pow2_lt_implies_lt,
    lemma_pow_mod_one_stays, lemma_pow_mod_square, mr_round_passes, odd_part, pow_mod, two_adic,
};
use crate::bigint::{
    big_eq, big_from_u64, big_is_even, big_half, big_modpow, big_nat, big_sub_one,
};
use crate::random::random_witness_offset;
use num_bigint::BigUint;
use vstd::arithmetic::power2::{lemma2_to64, lemma_pow2_adds, lemma_pow2_unfold, pow2};
use vstd::prelude::*;

verus! {

/// One Miller-Rabin round on the odd candidate `n` with witness `a`:
/// strip `n - 1` to `d * 2^s` with `d` odd, then inspect the chain of
/// squarings of `a^d mod n`. Returns exactly whether the round passes.
pub fn miller_rabin(n: &BigUint, a: &BigUint) -> (r: bool)
    requires
        big_nat(*n) >= 3,
        big_nat(*n) % 2 == 1,
        bit_len(big_nat(*n)) <= u64::MAX,
    ensures
        r == mr_round_passes(big_nat(*n), big_nat(*a)),
{
    let ghost nn = big_nat(*n);
    let ghost w = big_nat(*a);
    let one = big_from_u64(1);
    let n_minus_1 = big_sub_one(n);
    let mut d = big_sub_one(n);
    let mut s: u64 = 0;
    proof {
        assert(pow2(0) == 1) by {
            lemma2_to64();
        }
    }
    while big_is_even(&d)
        invariant
            big_nat(*n) == nn,
            nn >= 3,
            nn % 2 == 1,
            bit_len(nn) <= u64::MAX,
            big_nat(d) >= 1,
            big_nat(d) * pow2(s as nat) == nn - 1,
            odd_part(big_nat(d)) == odd_part((nn - 1) as nat),
            two_adic((nn - 1) as nat) == s + two_adic(big_nat(d)),
        decreases big_nat(d),
    {
        proof {
            let dv = big_nat(d);
            assert(dv % 2 == 0 && dv >= 1);
            assert(dv >= 2);
            let s1 = (s as nat) + 1;
            lemma_pow2_unfold(s1);
            assert(2 * pow2(s as nat) <= dv * pow2(s as nat)) by (nonlinear_arith)
                requires
                    dv >= 2,
                    pow2(s as nat) >= 0,
            ;
            assert(pow2(s1) <= nn - 1);
            lemma_bit_len_bounds((nn - 1) as nat);
            assert(pow2(s1) < pow2(bit_len((nn - 1) as nat)));
            lemma_pow2_lt_implies_lt(s1, bit_len((nn - 1) as nat));
            lemma_bit_len_mono((nn - 1) as nat, nn);
            assert(s1 <= u64::MAX);
            // the halved value keeps the same odd part and loses one factor of 2
            assert(dv == 2 * (dv / 2));
            assert((dv / 2) * pow2(s1) == dv * pow2(s as nat)) by (nonlinear_arith)
                requires
                    pow2(s1) == 2 * pow2(s as nat),
                    dv == 2 * (dv / 2),
            ;
        }
        d = big_half(&d);
        s = s + 1;
    }
    // d is odd now, so it is the odd part of n - 1, and s its 2-adic exponent
    let ghost d0 = odd_part((nn - 1) as nat);
    let ghost s0 = two_adic((nn - 1) as nat);
    proof {
        assert(big_nat(d) % 2 == 1);
        assert(odd_part(big_nat(d)) == big_nat(d));
        assert(two_adic(big_nat(d)) == 0);
        assert(big_nat(d) == d0);
        assert(s as nat == s0);
        // n - 1 is even, so at least one factor of 2 was stripped
        assert((nn - 1) as nat % 2 == 0);
        assert(two_adic((nn - 1) as nat) >= 1);
    }
    let two = big_from_u64(2);
    let mut x = big_modpow(a, &d, n);
    if big_eq(&x, &one) {
        proof {
            assert(mr_round_passes(nn, w));
        }
        return true;
    }
    if big_eq(&x, &n_minus_1) {
        proof {
            assert(pow2(0) == 1) by {
                lemma2_to64();
            }
            assert(d0 * pow2(0) == d0);
            assert(0 < s0 && pow_mod(w, d0 * pow2(0), nn) == (nn - 1) as nat);
            assert(mr_round_passes(nn, w));
        }
        return true;
    }
    let mut i: u64 = 1;
    while i < s
        invariant
            big_nat(*n) == nn,
            big_nat(*a) == w,
            big_nat(two) == 2,
            big_nat(one) == 1,
            big_nat(n_minus_1) == nn - 1,
            nn >= 3,
            nn % 2 == 1,
            d0 == odd_part((nn - 1) as nat),
            s0 == two_adic((nn - 1) as nat),
            s as nat == s0,
            1 <= i <= s,
            big_nat(x) == pow_mod(w, d0 * pow2((i - 1) as nat), nn),
            pow_mod(w, d0, nn) != 1,
            forall|j: nat| j < i ==> pow_mod(w, d0 * pow2(j), nn) != (nn - 1) as nat,
        decreases s - i,
    {
        let ghost e_prev = d0 * pow2((i - 1) as nat);
        x = big_modpow(&x, &two, n);
        proof {
            lemma_pow_mod_square(w, e_prev, nn);
            lemma_pow2_unfold(i as nat);
            assert(d0 * pow2(i as nat) == 2 * (d0 * pow2((i - 1) as nat))) by (nonlinear_arith)
                requires
                    pow2(i as nat) == 2 * pow2((i - 1) as nat),
            ;
            assert(big_nat(x) == pow_mod(w, d0 * pow2(i as nat), nn));
        }
        if big_eq(&x, &one) {
            proof {
                // from here on every further squaring stays at 1, so no
                // later index can reach n - 1 either
                assert forall|j: nat| j < s0 implies pow_mod(w, d0 * pow2(j), nn) != (
                nn - 1) as nat by {
                    if j < i as nat {
                        assert(pow_mod(w, d0 * pow2(j), nn) != (nn - 1) as nat);
                    } else {
                        let k = (j - i) as nat;
                        lemma_pow_mod_one_stays(w, d0 * pow2(i as nat), nn, k);
                        lemma_pow2_adds(i as nat, k);
                        assert((d0 * pow2(i as nat)) * pow2(k) == d0 * pow2(j)) by (nonlinear_arith)
                            requires
                                pow2(i as nat) * pow2(k) == pow2((i + k) as nat),
                                j == i + k,
                        ;
                        assert(pow_mod(w, d0 * pow2(j), nn) == 1);
                    }
                }
                assert(!mr_round_passes(nn, w));
            }
            return false;
        }
        if big_eq(&x, &n_minus_1) {
            proof {
                assert((i as nat) < s0 && pow_mod(w, d0 * pow2(i as nat), nn) == (nn - 1) as nat);
                assert(mr_round_passes(nn, w));
            }
            return true;
        }
        i = i + 1;
    }
    proof {
        assert(forall|j: nat| j < s0 ==> pow_mod(w, d0 * pow2(j), nn) != (nn - 1) as nat);
        assert(!mr_round_passes(nn, w));
    }
    false
}

/// Every Miller-Rabin round over the given witness set passes on `n`.
pub open spec fn all_rounds_pass(n: nat, witnesses: Seq<u64>) -> bool {
    forall|i: int| 0 <= i < witnesses.len() ==> mr_round_passes(n, witnesses[i] as nat)
}

/// Run one Miller-Rabin round on the odd candidate `n` for each witness in
/// turn: exactly whether every round passes, whatever the witness set.
pub fn passes_rounds(n: &BigUint, witnesses: &Vec<u64>) -> (r: bool)
    requires
        big_nat(*n) >= 3,
        big_nat(*n) % 2 == 1,
        bit_len(big_nat(*n)) <= u64::MAX,
    ensures
        r == all_rounds_pass(big_nat(*n), witnesses@),
{
    let ghost nn = big_nat(*n);
    let mut t: usize = 0;
    while t < witnesses.len()
        invariant
            big_nat(*n) == nn,
            nn >= 3,
            nn % 2 == 1,
            bit_len(nn) <= u64::MAX,
            t <= witnesses@.len(),
            forall|i: int| 0 <= i < t ==> mr_round_passes(nn, witnesses@[i] as nat),
        decreases witnesses@.len() - t,
    {
        let a = big_from_u64(witnesses[t]);
        if !miller_rabin(n, &a) {
            return false;
        }
        t = t + 1;
    }
    true
}

/// The probabilistic tester of the exchange: 0, 1 and even numbers beyond
/// 2 are rejected at once, and everything else runs `trials` Miller-Rabin
/// rounds with witnesses drawn at random from 2..102. A value reported
/// `true` passed every round.
pub fn is_probable_prime(n: &BigUint, trials: usize) -> (r: bool)
    requires
        bit_len(big_nat(*n)) <= u64::MAX,
    ensures
        big_nat(*n) <= 1 ==> r == false,
        big_nat(*n) == 2 ==> r == true,
        big_nat(*n) > 2 && big_nat(*n) % 2 == 0 ==> r == false,
        big_nat(*n) >= 3 && big_nat(*n) % 2 == 1 && trials == 0 ==> r == true,
        r ==> big_nat(*n) == 2 || (big_nat(*n) >= 3 && big_nat(*n) % 2 == 1),
{
    let zero = big_from_u64(0);
    let one = big_from_u64(1);
    let two = big_from_u64(2);
    if big_eq(n, &zero) || big_eq(n, &one) {
        return false;
    }
    if big_eq(n, &two) {
        return true;
    }
    if big_is_even(n) {
        return false;
    }
    let mut witnesses: Vec<u64> = Vec::new();
    let mut t: usize = 0;
    while t < trials
        invariant
            witnesses@.len() == t,
            t <= trials,
        decreases trials - t,
    {
        let offset = random_witness_offset();
        witnesses.push(2 + offset);
        t = t + 1;
    }
    passes_rounds(n, &witnesses)
}

} // verus!
