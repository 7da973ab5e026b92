//! Signatures over SHA-256 digests.

use crate::bigint::{big_eq, big_from_bytes_be, big_modpow, int_of};
use crate::encoding::be_nat;
use crate::hash::{sha256, sha256_digest};
use crate::keys::Keys;
use crate::numbers::power_mod;
use num_bigint::BigInt;
use vstd::prelude::*;
use vstd::string::StringSliceAdditionalSpecFns;

verus! {

/// The signature that the private key `d` with modulus `n` puts on a digest.
pub open spec fn digest_signature(d: int, n: int, digest: Seq<u8>) -> int {
    power_mod(be_nat(digest) as int, d, n)
}

/// Whether the public key `(e, n)` accepts `sig` as a signature on a digest.
pub open spec fn digest_accepted(e: int, n: int, digest: Seq<u8>, sig: int) -> bool {
    be_nat(digest) as int == power_mod(sig, e, n)
}

impl Keys {
    /// Signs a digest with the private key: the digest, read as a big-endian
    /// number, raised to the private exponent modulo `n`.
    pub fn sign_digest(&self, digest: &[u8]) -> (sig: BigInt)
        requires
            self.well_formed(),
        ensures
            int_of(sig) == digest_signature(self.d(), self.n(), digest@),
    {
        let h = big_from_bytes_be(digest);
        big_modpow(&h, &self.private_key, &self.public_key.1)
    }

    /// Whether `sig` raised to the public exponent modulo `n` is the number
    /// that the digest spells out.
    pub fn verify_digest(&self, digest: &[u8], sig: &BigInt) -> (ok: bool)
        requires
            self.well_formed(),
        ensures
            ok == digest_accepted(self.e(), self.n(), digest@, int_of(*sig)),
    {
        let h = big_from_bytes_be(digest);
        let recovered = big_modpow(sig, &self.public_key.0, &self.public_key.1);
        big_eq(&h, &recovered)
    }

    /// Signs the SHA-256 digest of `message`.
    pub fn sign(&self, message: &str) -> (sig: BigInt)
        requires
            self.well_formed(),
        ensures
            int_of(sig) == digest_signature(self.d(), self.n(), sha256(message.spec_bytes())),
    {
        let digest = sha256_digest(message.as_bytes());
        self.sign_digest(digest.as_slice())
    }

    /// Whether `sig` is the signature of this key pair on `message`. A
    /// signature that does not match is an ordinary outcome, reported as
    /// `false`.
    pub fn verify(&self, message: &str, sig: &BigInt) -> (ok: bool)
        requires
            self.well_formed(),
        ensures
            ok == digest_accepted(
                self.e(),
                self.n(),
                sha256(message.spec_bytes()),
                int_of(*sig),
            ),
    {
        let digest = sha256_digest(message.as_bytes());
        self.verify_digest(digest.as_slice(), sig)
    }
}

} // verus!
