use num_bigint::{BigInt, BigUint, ToBigInt};
use num_traits::{One, Zero};
use textbook_rsa::keys::Keys;

#[test]
fn test_generate_keys() {
    let (
        Keys {
            public_key: (e, n),
            private_key: d,
        },
        p,
        q,
    ) = Keys::generate_keys().expect("Failed to generate keys");

    assert!(e > BigInt::zero());
    assert!(n > BigInt::zero());
    assert!(d > BigInt::zero());

    let phi_of_n = (p.clone() - BigUint::one()) * (q.clone() - BigUint::one());
    let phi_of_n = phi_of_n.to_bigint().expect("Failed to convert phi_of_n");

    let ed_mod_phi = (e * d) % &phi_of_n;
    assert_eq!(ed_mod_phi, BigInt::one(), "1")
}

#[test]
fn test_modular_inverse() {
    let a = BigInt::from(3);
    let m = BigInt::from(11);
    let inverse = Keys::modular_inverse(&a, &m).expect("Failed to compute modular inverse");
    assert_eq!((a * inverse) % m, BigInt::one(), "1");
}

#[test]
fn test_encrypt_decrypt() {
    let (keys, _, _) = Keys::generate_keys().expect("Failed to generate keys");
    let message = "Hello";
    let c = keys.encrypt(message);
    let d = keys.decrypt(&c);

    assert_eq!(message.as_bytes(), &d[..], "Failed to decrypt message");
}

#[test]
fn test_sign() {
    let (keys, _, _) = Keys::generate_keys().expect("Failed to generate keys");
    let message = "Hello";
    let signature = keys.sign(message);

    assert!(keys.verify(message, &signature), "The is not valid");
}

#[test]
fn test_verify_altered_message() {
    let (keys, _, _) = Keys::generate_keys().expect("Failed to generate keys");
    let signature = keys.sign("Hello");

    assert!(keys.verify("Hello", &signature));
    assert!(!keys.verify("Hllo", &signature));
}
