use num_bigint::{BigInt, BigUint};
use num_traits::One;
use textbook_rsa::keys::{KeyError, Keys, MAX_ATTEMPTS, PRIME_BITS, PUBLIC_EXPONENT};
use textbook_rsa::primes::MIN_PRIME_BITS;

fn small_keys() -> Keys {
    Keys::keys_from_primes(&BigUint::from(61u32), &BigUint::from(53u32)).expect("17 is invertible")
}

#[test]
fn constants_of_the_generator() {
    assert_eq!(PUBLIC_EXPONENT, 65537);
    assert_eq!(PRIME_BITS, 1024);
    assert_eq!(MIN_PRIME_BITS, 128);
    assert!(MAX_ATTEMPTS >= 1);
}

#[test]
fn keys_of_61_and_53() {
    let keys = small_keys();
    assert_eq!(keys.public_key.0, BigInt::from(65537));
    assert_eq!(keys.public_key.1, BigInt::from(3233));
    assert_eq!(keys.private_key, BigInt::from(2753));
}

#[test]
fn keys_do_not_depend_on_the_order_of_the_primes() {
    let keys = Keys::keys_from_primes(&BigUint::from(53u32), &BigUint::from(61u32)).unwrap();
    assert_eq!(keys.public_key.1, BigInt::from(3233));
    assert_eq!(keys.private_key, BigInt::from(2753));
}

#[test]
fn no_keys_when_the_exponent_divides_the_totient() {
    // (65538 - 1) * (3 - 1) is a multiple of 65537.
    let r = Keys::keys_from_primes(&BigUint::from(65538u32), &BigUint::from(3u32));
    assert_eq!(r.unwrap_err(), KeyError::KeyConstructionFailure);
}

#[test]
fn no_keys_when_the_totient_is_too_small() {
    for (p, q) in [(0u32, 0u32), (0, 7), (1, 7), (7, 1), (2, 2), (1, 1), (0, 1)] {
        let r = Keys::keys_from_primes(&BigUint::from(p), &BigUint::from(q));
        assert_eq!(r.unwrap_err(), KeyError::KeyConstructionFailure, "{p} and {q}");
    }
}

#[test]
fn smallest_keys() {
    // The totient of 2 and 3 is 2, and 65537 is 1 modulo 2.
    let keys = Keys::keys_from_primes(&BigUint::from(2u32), &BigUint::from(3u32)).unwrap();
    assert_eq!(keys.public_key.1, BigInt::from(6));
    assert_eq!(keys.private_key, BigInt::one());
}

#[test]
fn no_primes_below_the_smallest_size() {
    assert_eq!(Keys::generate_keys_of_size(0).unwrap_err(), KeyError::PrimeGenerationFailure);
    assert_eq!(Keys::generate_keys_of_size(64).unwrap_err(), KeyError::PrimeGenerationFailure);
    assert_eq!(
        Keys::generate_keys_of_size(MIN_PRIME_BITS - 1).unwrap_err(),
        KeyError::PrimeGenerationFailure
    );
}

#[test]
fn generated_keys_of_the_smallest_size() {
    let (keys, p, q) = Keys::generate_keys_of_size(MIN_PRIME_BITS).expect("128 bits are accepted");
    assert_eq!(p.bits(), 128);
    assert_eq!(q.bits(), 128);
    assert!(glass_pumpkin::prime::check(&p));
    assert!(glass_pumpkin::prime::check(&q));
    let (e, n) = keys.public_key;
    let d = keys.private_key;
    let phi = BigInt::from((&p - 1u32) * (&q - 1u32));
    assert_eq!(e, BigInt::from(65537));
    assert_eq!(n, BigInt::from(&p * &q));
    assert!(d > BigInt::from(0) && d < phi);
    assert_eq!((e * d) % phi, BigInt::one());
}

#[test]
fn generated_primes_have_the_fixed_size() {
    let (keys, p, q) = Keys::generate_keys().expect("Failed to generate keys");
    assert_eq!(p.bits(), 1024);
    assert_eq!(q.bits(), 1024);
    assert_eq!(keys.public_key.1, BigInt::from(&p * &q));
    assert_eq!(keys.public_key.0, BigInt::from(65537));
}

#[test]
fn generated_keys_differ() {
    let (first, _, _) = Keys::generate_keys_of_size(256).unwrap();
    let (second, _, _) = Keys::generate_keys_of_size(256).unwrap();
    assert_ne!(first.public_key.1, second.public_key.1);
}

#[test]
fn key_error_can_be_printed_and_compared() {
    assert_ne!(KeyError::PrimeGenerationFailure, KeyError::KeyConstructionFailure);
    assert_eq!(format!("{:?}", KeyError::KeyConstructionFailure), "KeyConstructionFailure");
    let copy = KeyError::PrimeGenerationFailure;
    assert_eq!(copy, KeyError::PrimeGenerationFailure);
}

#[test]
fn well_formed_keys() {
    assert!(small_keys().is_well_formed());
    let by_hand = |e: i64, n: i64, d: i64| Keys {
        public_key: (BigInt::from(e), BigInt::from(n)),
        private_key: BigInt::from(d),
    };
    assert!(by_hand(17, 3233, 2753).is_well_formed());
    assert!(by_hand(0, 1, 0).is_well_formed());
    assert!(!by_hand(17, 0, 2753).is_well_formed());
    assert!(!by_hand(17, -3233, 2753).is_well_formed());
    assert!(!by_hand(-17, 3233, 2753).is_well_formed());
    assert!(!by_hand(17, 3233, -1).is_well_formed());
}

#[test]
fn keys_put_together_by_hand() {
    // The textbook key with the public exponent 17.
    let keys = Keys {
        public_key: (BigInt::from(17), BigInt::from(3233)),
        private_key: BigInt::from(2753),
    };
    assert_eq!(keys.encrypt("A"), BigInt::from(2790));
    assert_eq!(keys.decrypt(&BigInt::from(2790)), vec![65u8]);
}

#[test]
fn tested_primes_that_passed_give_their_keys() {
    let (keys, p, q) =
        Keys::keys_from_tested_primes(BigUint::from(61u32), true, BigUint::from(53u32), true)
            .expect("17 is invertible");
    assert_eq!(p, BigUint::from(61u32));
    assert_eq!(q, BigUint::from(53u32));
    assert_eq!(keys.public_key.0, BigInt::from(65537));
    assert_eq!(keys.public_key.1, BigInt::from(3233));
    assert_eq!(keys.private_key, BigInt::from(2753));
}

#[test]
fn a_candidate_that_failed_the_test_gives_no_keys() {
    for (p_passed, q_passed) in [(false, true), (true, false), (false, false)] {
        let r = Keys::keys_from_tested_primes(
            BigUint::from(61u32),
            p_passed,
            BigUint::from(53u32),
            q_passed,
        );
        assert_eq!(r.unwrap_err(), KeyError::PrimeGenerationFailure);
    }
    // A failed test is reported before the exponent is looked at.
    let r = Keys::keys_from_tested_primes(BigUint::from(65538u32), false, BigUint::from(3u32), true);
    assert_eq!(r.unwrap_err(), KeyError::PrimeGenerationFailure);
}

#[test]
fn tested_primes_with_a_bad_totient_give_no_keys() {
    let r = Keys::keys_from_tested_primes(BigUint::from(65538u32), true, BigUint::from(3u32), true);
    assert_eq!(r.unwrap_err(), KeyError::KeyConstructionFailure);
    let r = Keys::keys_from_tested_primes(BigUint::from(2u32), true, BigUint::from(2u32), true);
    assert_eq!(r.unwrap_err(), KeyError::KeyConstructionFailure);
}
