use num_bigint::{BigInt, BigUint};
use num_traits::One;
use textbook_rsa::keys::Keys;

fn small_keys() -> Keys {
    Keys::keys_from_primes(&BigUint::from(61u32), &BigUint::from(53u32)).expect("17 is invertible")
}

/// The key pair of the two Mersenne primes 2^521 - 1 and 2^607 - 1.
fn mersenne_keys() -> Keys {
    let p: BigUint = (BigUint::one() << 521) - 1u32;
    let q: BigUint = (BigUint::one() << 607) - 1u32;
    Keys::keys_from_primes(&p, &q).expect("65537 is invertible")
}

#[test]
fn encrypt_one_letter() {
    // 65^65537 = 65^17 = 2790 (mod 3233)
    assert_eq!(small_keys().encrypt("A"), BigInt::from(2790));
}

#[test]
fn decrypt_one_letter() {
    assert_eq!(small_keys().decrypt(&BigInt::from(2790)), vec![65u8]);
}

#[test]
fn encrypt_is_modular_exponentiation() {
    let keys = mersenne_keys();
    let m = BigInt::from_bytes_be(num_bigint::Sign::Plus, b"Hello");
    assert_eq!(keys.encrypt("Hello"), m.modpow(&keys.public_key.0, &keys.public_key.1));
}

#[test]
fn round_trip_of_every_short_message() {
    let keys = small_keys();
    for byte in 1u8..128 {
        let text = String::from(byte as char);
        let c = keys.encrypt(&text);
        assert!(c >= BigInt::from(0) && c < keys.public_key.1);
        assert_eq!(keys.decrypt(&c), vec![byte]);
    }
}

#[test]
fn round_trip_of_long_messages() {
    let keys = mersenne_keys();
    for text in ["Hello", "a", "The quick brown fox jumps over the lazy dog", "h\u{e9}llo \u{4e16}\u{754c}"] {
        let c = keys.encrypt(text);
        assert_eq!(keys.decrypt(&c), text.as_bytes().to_vec(), "{text}");
    }
}

#[test]
fn round_trip_of_the_zero_byte() {
    let keys = small_keys();
    let c = keys.encrypt("\0");
    assert_eq!(c, BigInt::from(0));
    assert_eq!(keys.decrypt(&c), vec![0u8]);
}

#[test]
fn empty_message_comes_back_as_one_zero_byte() {
    let keys = mersenne_keys();
    let c = keys.encrypt("");
    assert_eq!(c, BigInt::from(0));
    assert_eq!(keys.decrypt(&c), vec![0u8]);
}

#[test]
fn leading_zero_bytes_are_lost() {
    let keys = mersenne_keys();
    assert_eq!(keys.encrypt("\0\0Hello"), keys.encrypt("Hello"));
    assert_eq!(keys.decrypt(&keys.encrypt("\0\0Hello")), b"Hello".to_vec());
}

#[test]
fn message_above_the_modulus_is_reduced() {
    let keys = small_keys();
    // "AB" is 16706, which is 541 modulo 3233, and 541 is the bytes 2 and 29.
    let c = keys.encrypt("AB");
    assert_eq!(c, BigInt::from(2107));
    assert_eq!(c, keys.encrypt("\u{2}\u{1d}"));
    assert_eq!(keys.decrypt(&c), vec![2u8, 29]);
}

#[test]
fn message_just_below_and_at_the_modulus() {
    let keys = small_keys();
    // 3232 = 0x0ca0 is n - 1, and (n - 1)^e = n - 1 for an odd e.
    assert_eq!(keys.decrypt(&BigInt::from(3232)), vec![0x0cu8, 0xa0]);
    assert_eq!(keys.decrypt(&BigInt::from(3233)), vec![0u8]);
    assert_eq!(keys.decrypt(&BigInt::from(3234)), vec![1u8]);
}

#[test]
fn decrypt_of_a_negative_number() {
    let keys = small_keys();
    // -1 to an odd power is -1, which is 3232 modulo 3233.
    assert_eq!(keys.decrypt(&BigInt::from(-1)), vec![0x0cu8, 0xa0]);
}
