use dh_exchange::primality::{is_probable_prime, miller_rabin, passes_rounds};
use num_bigint::BigUint;

fn big(v: u64) -> BigUint {
    BigUint::from(v)
}

#[test]
fn rejects_zero_and_one() {
    assert!(!is_probable_prime(&big(0), 10));
    assert!(!is_probable_prime(&big(1), 10));
}

#[test]
fn accepts_two() {
    assert!(is_probable_prime(&big(2), 1));
    assert!(is_probable_prime(&big(2), 10));
}

#[test]
fn rejects_even_numbers() {
    assert!(!is_probable_prime(&big(4), 10));
    assert!(!is_probable_prime(&big(100), 10));
    assert!(!is_probable_prime(&big(65536), 10));
    assert!(!is_probable_prime(&big(1000000), 10));
}

#[test]
fn accepts_known_primes() {
    // primes above the witness range 2..102, so every round must pass
    for p in [103u64, 107, 109, 113, 127, 131, 65537, 104729, 2147483647] {
        assert!(is_probable_prime(&big(p), 10), "{} is prime", p);
    }
}

#[test]
fn miller_rabin_fixed_witnesses_on_primes() {
    // a true prime passes a round for any witness it does not divide
    assert!(miller_rabin(&big(23), &big(2)));
    assert!(miller_rabin(&big(23), &big(5)));
    assert!(miller_rabin(&big(104729), &big(2)));
    assert!(miller_rabin(&big(104729), &big(97)));
}

#[test]
fn miller_rabin_fixed_witnesses_on_composites() {
    assert!(!miller_rabin(&big(9), &big(2)));
    assert!(!miller_rabin(&big(15), &big(2)));
    assert!(!miller_rabin(&big(21), &big(2)));
    assert!(!miller_rabin(&big(25), &big(2)));
    assert!(!miller_rabin(&big(221), &big(137)));
}

#[test]
fn miller_rabin_strong_liar() {
    // 221 = 13 * 17 is composite, yet the witness 174 passes the round:
    // one round only bounds the error, it does not certify primality
    assert!(miller_rabin(&big(221), &big(174)));
}

#[test]
fn fixed_witness_sets() {
    // composite 221 slips past its lone strong liar but not a fuller set
    assert!(passes_rounds(&big(221), &vec![174]));
    assert!(!passes_rounds(&big(221), &vec![174, 137]));
    assert!(passes_rounds(&big(104729), &vec![2, 3, 5, 7, 11]));
    // the empty witness set objects to nothing
    assert!(passes_rounds(&big(9), &vec![]));
}

#[test]
fn zero_trials_pass_any_odd_candidate() {
    assert!(is_probable_prime(&big(9), 0));
    assert!(is_probable_prime(&big(7), 0));
    assert!(!is_probable_prime(&big(8), 0));
}

#[test]
fn composites_with_small_factors_are_rejected() {
    // every witness in 2..102 exposes these, so the outcome is deterministic
    for n in [9u64, 15, 25, 27, 33, 49] {
        assert!(!miller_rabin(&big(n), &big(2)), "{} is composite", n);
    }
}
