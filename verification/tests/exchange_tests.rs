use dh_exchange::exchange::{
    compute_public_key, compute_shared_secret, generate_private_key, run_exchange,
    verify_agreement, Participant,
};
use dh_exchange::primegen::{generate_prime, generate_random, random_odd_candidate};
use dh_exchange::ExchangeError;
use num_bigint::BigUint;

fn big(v: u64) -> BigUint {
    BigUint::from(v)
}

#[test]
fn prime_bit_length_matches_request() {
    for bit_size in 8usize..=64 {
        let p = generate_prime(bit_size, 100000).expect("a prime should be found");
        assert_eq!(p.bits(), bit_size as u64, "bit_size {}", bit_size);
    }
}

#[test]
fn generated_primes_are_odd() {
    for bit_size in [8usize, 16, 24, 32] {
        let p = generate_prime(bit_size, 100000).expect("a prime should be found");
        assert_eq!(&p % 2u32, big(1));
    }
}

#[test]
fn candidates_have_exact_bit_length_and_are_odd() {
    for bit_size in [2usize, 3, 8, 9, 15, 16, 17, 31, 32, 33, 63, 64, 65, 127, 128] {
        for _ in 0..20 {
            let c = random_odd_candidate(bit_size);
            assert_eq!(c.bits(), bit_size as u64, "bit_size {}", bit_size);
            assert_eq!(&c % 2u32, big(1));
        }
    }
}

#[test]
fn generate_random_stays_below_byte_bound() {
    for bit_size in [1usize, 8, 9, 16, 31] {
        let bound = BigUint::from(1u32) << (8 * ((bit_size + 7) / 8));
        for _ in 0..20 {
            assert!(generate_random(bit_size) < bound);
        }
    }
}

#[test]
fn invalid_bit_sizes_are_rejected() {
    assert_eq!(generate_prime(0, 10), Err(ExchangeError::InvalidBitSize));
    assert_eq!(generate_prime(1, 10), Err(ExchangeError::InvalidBitSize));
}

#[test]
fn exhausted_prime_search_is_reported() {
    assert_eq!(generate_prime(16, 0), Err(ExchangeError::PrimeSearchExhausted));
}

#[test]
fn private_keys_stay_inside_the_field() {
    let p = big(23);
    for _ in 0..50 {
        let k = generate_private_key(&p, 10000).expect("a key should be found");
        assert!(k > big(0));
        assert!(k < p);
    }
    let q = generate_prime(64, 100000).expect("a prime should be found");
    for _ in 0..20 {
        let k = generate_private_key(&q, 10000).expect("a key should be found");
        assert!(k > big(0));
        assert!(k < q);
    }
}

#[test]
fn exhausted_key_search_is_reported() {
    assert_eq!(
        generate_private_key(&big(23), 0),
        Err(ExchangeError::PrivateKeySearchExhausted)
    );
}

#[test]
fn exchange_commutes_over_a_small_field() {
    // (g^a mod p)^b mod p == (g^b mod p)^a mod p for every pair of keys
    let p = big(23);
    let g = big(5);
    for a in 1u64..23 {
        for b in 1u64..23 {
            let pub_a = compute_public_key(&g, &p, &big(a));
            let pub_b = compute_public_key(&g, &p, &big(b));
            let secret_a = compute_shared_secret(&pub_b, &p, &big(a));
            let secret_b = compute_shared_secret(&pub_a, &p, &big(b));
            assert_eq!(secret_a, secret_b, "a = {}, b = {}", a, b);
        }
    }
}

#[test]
fn zero_exponent_gives_one() {
    for (g, p) in [(5u64, 23u64), (2, 3), (100, 97), (0, 23), (1, 2)] {
        let r = compute_public_key(&big(g), &big(p), &big(0));
        assert_eq!(r, big(1), "g = {}, p = {}", g, p);
    }
}

#[test]
fn concrete_exchange_scenario() {
    // p = 23, g = 5; Alice holds 6, Bob holds 15; both reach the secret 2
    let p = big(23);
    let g = big(5);
    let alice_private = big(6);
    let bob_private = big(15);
    let alice_public = compute_public_key(&g, &p, &alice_private);
    let bob_public = compute_public_key(&g, &p, &bob_private);
    assert_eq!(alice_public, big(8));
    assert_eq!(bob_public, big(19));
    let alice_secret = compute_shared_secret(&bob_public, &p, &alice_private);
    let bob_secret = compute_shared_secret(&alice_public, &p, &bob_private);
    assert_eq!(alice_secret, big(2));
    assert_eq!(bob_secret, big(2));
    assert_eq!(verify_agreement(&alice_secret, &bob_secret), Ok(()));
}

#[test]
fn corrupted_public_key_is_detected() {
    // corrupting Bob's public key on the wire must surface as a mismatch
    let p = big(23);
    let g = big(5);
    let alice_private = big(6);
    let bob_private = big(15);
    let alice_public = compute_public_key(&g, &p, &alice_private);
    let bob_public = compute_public_key(&g, &p, &bob_private);
    let corrupted = &bob_public + 1u32;
    let alice_secret = compute_shared_secret(&corrupted, &p, &alice_private);
    let bob_secret = compute_shared_secret(&alice_public, &p, &bob_private);
    assert_ne!(alice_secret, bob_secret);
    assert_eq!(
        verify_agreement(&alice_secret, &bob_secret),
        Err(ExchangeError::SharedSecretMismatch)
    );
}

#[test]
fn participants_agree_on_a_generated_field() {
    let p = generate_prime(64, 100000).expect("a prime should be found");
    let g = big(2);
    let alice = Participant::new(&g, &p, 10000).expect("a key should be found");
    let bob = Participant::new(&g, &p, 10000).expect("a key should be found");
    let alice_secret = alice.shared_secret(&bob.public_key, &p);
    let bob_secret = bob.shared_secret(&alice.public_key, &p);
    assert_eq!(alice_secret, bob_secret);
    assert_eq!(verify_agreement(&alice_secret, &bob_secret), Ok(()));
}

#[test]
fn full_exchange_over_a_generated_prime() {
    let outcome = run_exchange(128, 100000).expect("the exchange should succeed");
    assert_eq!(outcome.modulus.bits(), 128);
    assert_eq!(&outcome.modulus % 2u32, big(1));
    assert!(outcome.alice_public_key < outcome.modulus);
    assert!(outcome.bob_public_key < outcome.modulus);
    assert!(outcome.shared_secret < outcome.modulus);
}

#[test]
fn full_exchange_rejects_degenerate_bit_sizes() {
    assert!(matches!(
        run_exchange(0, 10),
        Err(ExchangeError::InvalidBitSize)
    ));
    assert!(matches!(
        run_exchange(1, 10),
        Err(ExchangeError::InvalidBitSize)
    ));
}
