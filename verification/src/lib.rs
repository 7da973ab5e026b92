//! Textbook RSA over arbitrary-precision integers: key generation, encryption
//! and decryption of short messages, and signatures over SHA-256 digests.
//!
//! This is the raw scheme, without padding. It is meant for study, not for
//! protecting data.

pub mod bigint;
pub mod cryptor;
pub mod encoding;
pub mod fermat;
pub mod hash;
pub mod inverse;
pub mod keys;
pub mod laws;
pub mod numbers;
pub mod primes;
pub mod signer;
