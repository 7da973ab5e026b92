//! Encryption and decryption.

use crate::bigint::{big_from_bytes_be, big_modpow, big_to_bytes_be, int_of};
use crate::encoding::{be_bytes, be_nat};
use crate::keys::Keys;
use crate::numbers::power_mod;
use num_bigint::BigInt;
use vstd::arithmetic::div_mod::lemma_mod_bound;
use vstd::arithmetic::power::pow;
use vstd::prelude::*;
use vstd::string::StringSliceAdditionalSpecFns;

verus! {

/// The ciphertext of `message` under the public key `(e, n)`.
pub open spec fn encryption(e: int, n: int, message: Seq<u8>) -> int {
    power_mod(be_nat(message) as int, e, n)
}

/// The bytes that the private key `d` with modulus `n` recovers from `c`.
pub open spec fn decryption(d: int, n: int, c: int) -> Seq<u8> {
    be_bytes(power_mod(c, d, n) as nat)
}

impl Keys {
    /// Encrypts `message` under the public key: the bytes of the message, read
    /// as a big-endian number, raised to the public exponent modulo `n`.
    ///
    /// A message whose number is `n` or more is not told apart from that
    /// number reduced modulo `n`.
    pub fn encrypt(&self, message: &str) -> (c: BigInt)
        requires
            self.well_formed(),
        ensures
            int_of(c) == encryption(self.e(), self.n(), message.spec_bytes()),
    {
        let m = big_from_bytes_be(message.as_bytes());
        big_modpow(&m, &self.public_key.0, &self.public_key.1)
    }

    /// Decrypts `c` with the private key: `c` raised to the private exponent
    /// modulo `n`, written as the shortest big-endian byte string.
    pub fn decrypt(&self, c: &BigInt) -> (message: Vec<u8>)
        requires
            self.well_formed(),
        ensures
            message@ == decryption(self.d(), self.n(), int_of(*c)),
    {
        let m = big_modpow(c, &self.private_key, &self.public_key.1);
        proof {
            lemma_mod_bound(pow(int_of(*c), self.d() as nat), self.n());
        }
        big_to_bytes_be(&m)
    }
}

} // verus!
