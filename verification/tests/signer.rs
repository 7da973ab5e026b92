use num_bigint::{BigInt, BigUint, Sign};
use num_traits::One;
use sha2::{Digest, Sha256};
use textbook_rsa::hash::DIGEST_LEN;
use textbook_rsa::keys::Keys;

fn small_keys() -> Keys {
    Keys::keys_from_primes(&BigUint::from(61u32), &BigUint::from(53u32)).expect("17 is invertible")
}

/// The key pair of the two Mersenne primes 2^521 - 1 and 2^607 - 1.
fn mersenne_keys() -> Keys {
    let p: BigUint = (BigUint::one() << 521) - 1u32;
    let q: BigUint = (BigUint::one() << 607) - 1u32;
    Keys::keys_from_primes(&p, &q).expect("65537 is invertible")
}

#[test]
fn digest_length() {
    assert_eq!(DIGEST_LEN, 32);
    assert_eq!(Sha256::digest(b"Hello").len(), DIGEST_LEN);
}

#[test]
fn sign_one_byte_digest() {
    // 65^2753 = 588 (mod 3233)
    assert_eq!(small_keys().sign_digest(&[65]), BigInt::from(588));
}

#[test]
fn verify_one_byte_digest() {
    let keys = small_keys();
    assert!(keys.verify_digest(&[65], &BigInt::from(588)));
    assert!(!keys.verify_digest(&[66], &BigInt::from(588)));
    assert!(!keys.verify_digest(&[65], &BigInt::from(589)));
    // Leading zero bytes do not change the number of a digest.
    assert!(keys.verify_digest(&[0, 65], &BigInt::from(588)));
}

#[test]
fn sign_hashes_with_sha256() {
    let keys = mersenne_keys();
    let digest = Sha256::digest(b"Hello");
    assert_eq!(
        format!("{:x}", digest),
        "185f8db32271fe25f561a6fc938b2e264306ec304eda518007d1764826381969"
    );
    let h = BigInt::from_bytes_be(Sign::Plus, &digest);
    assert_eq!(keys.sign("Hello"), h.modpow(&keys.private_key, &keys.public_key.1));
    assert_eq!(keys.sign("Hello"), keys.sign_digest(&digest));
}

#[test]
fn sign_under_a_small_modulus() {
    // The digest of "Hello" is 1544 modulo 3233, and 1544^2753 = 229.
    assert_eq!(small_keys().sign("Hello"), BigInt::from(229));
}

#[test]
fn own_signature_is_accepted() {
    let keys = mersenne_keys();
    for text in ["Hello", "", "a", "The quick brown fox jumps over the lazy dog"] {
        let signature = keys.sign(text);
        assert!(signature >= BigInt::from(0) && signature < keys.public_key.1);
        assert!(keys.verify(text, &signature), "{text}");
    }
}

#[test]
fn signature_of_another_message_is_rejected() {
    let keys = mersenne_keys();
    let signature = keys.sign("Hello");
    assert!(!keys.verify("Hllo", &signature));
    assert!(!keys.verify("hello", &signature));
    assert!(!keys.verify("", &signature));
}

#[test]
fn altered_signature_is_rejected() {
    let keys = mersenne_keys();
    let signature = keys.sign("Hello");
    assert!(!keys.verify("Hello", &(&signature + 1)));
    assert!(!keys.verify("Hello", &BigInt::from(0)));
}

#[test]
fn signature_of_another_key_is_rejected() {
    let keys = mersenne_keys();
    let p: BigUint = (BigUint::one() << 127) - 1u32;
    let q: BigUint = (BigUint::one() << 521) - 1u32;
    let other = Keys::keys_from_primes(&p, &q).expect("65537 is invertible");
    let signature = other.sign("Hello");
    assert!(other.verify("Hello", &signature));
    assert!(!keys.verify("Hello", &signature));
}

#[test]
fn verify_is_verify_digest_of_the_hash() {
    let keys = mersenne_keys();
    let signature = keys.sign("Hello");
    assert!(keys.verify_digest(&Sha256::digest(b"Hello"), &signature));
    assert!(!keys.verify_digest(&Sha256::digest(b"Hllo"), &signature));
    // Handing the message over in place of its digest does not verify.
    assert!(!keys.verify_digest(b"Hello", &signature));
}

#[test]
fn small_modulus_cannot_hold_a_digest() {
    // The digest is far above 3233, so what verification recovers is the
    // digest modulo 3233 and never the digest.
    let keys = small_keys();
    let signature = keys.sign("Hello");
    assert!(!keys.verify("Hello", &signature));
}
