//! The key pair and its generation.

use crate::bigint::{
    big_from_u64, big_from_unsigned, big_lt, big_mul, big_one, big_sub, big_zero, int_of, nat_of,
};
use crate::numbers::gcd;
use crate::primes::{check_prime, has_bit_length, new_prime, MIN_PRIME_BITS};
use num_bigint::BigInt;
use num_bigint::BigUint;
use vstd::prelude::*;

verus! {

/// The public exponent of every generated key.
pub const PUBLIC_EXPONENT: u64 = 65537;

/// The size, in bits, of each of the two primes of a generated key.
pub const PRIME_BITS: usize = 1024;

/// How many pairs of primes [`Keys::generate_keys`] draws before it gives up on
/// finding one whose totient the public exponent is invertible for.
pub const MAX_ATTEMPTS: usize = 16;

/// An RSA key pair: the public exponent and modulus, and the private exponent.
#[derive(Debug)]
pub struct Keys {
    /// The public exponent `e` and the modulus `n`.
    pub public_key: (BigInt, BigInt),
    /// The private exponent `d`.
    pub private_key: BigInt,
}

/// Why no key pair could be made.
#[derive(Debug, Clone, Copy, PartialEq, Eq)]
pub enum KeyError {
    /// The source of primes produced no prime, or one that failed its own test.
    /// Trying again may succeed.
    PrimeGenerationFailure,
    /// The public exponent has no inverse modulo the totient of the primes.
    /// Other primes will do.
    KeyConstructionFailure,
}

/// Euler's totient of the product of two distinct primes `p` and `q`.
pub open spec fn totient(p: int, q: int) -> int {
    (p - 1) * (q - 1)
}

/// Two numbers that are not negative and whose totient is above 1 are both at
/// least 2, so their product is positive.
proof fn lemma_totient_above_one(p: int, q: int)
    requires
        p >= 0,
        q >= 0,
        totient(p, q) > 1,
    ensures
        p >= 2,
        q >= 2,
        p * q > 0,
{
    assert(p >= 2 && q >= 2) by (nonlinear_arith)
        requires
            p >= 0,
            q >= 0,
            (p - 1) * (q - 1) > 1,
    ;
    assert(p * q > 0) by (nonlinear_arith)
        requires
            p >= 2,
            q >= 2,
    ;
}

impl Keys {
    /// The public exponent.
    pub open spec fn e(&self) -> int {
        int_of(self.public_key.0)
    }

    /// The modulus.
    pub open spec fn n(&self) -> int {
        int_of(self.public_key.1)
    }

    /// The private exponent.
    pub open spec fn d(&self) -> int {
        int_of(self.private_key)
    }

    /// The exponents are not negative and the modulus is positive: what the
    /// operations need in order to compute at all.
    pub open spec fn well_formed(&self) -> bool {
        self.e() >= 0 && self.n() > 0 && self.d() >= 0
    }

    /// The key pair is the one that belongs to `p` and `q`: the modulus is their
    /// product, the public exponent is the fixed one, and the private exponent
    /// is its inverse modulo the totient, taken in `[0, totient)`.
    pub open spec fn built_from(&self, p: int, q: int) -> bool {
        &&& self.n() == p * q
        &&& self.e() == PUBLIC_EXPONENT
        &&& 0 <= self.d() < totient(p, q)
        &&& (self.e() * self.d()) % totient(p, q) == 1
    }

    /// Whether the key pair is well formed. The fields are public, so a key
    /// pair may have been put together by hand; the operations ask for a well
    /// formed one, and this is the test to make before calling them.
    pub fn is_well_formed(&self) -> (ok: bool)
        ensures
            ok == self.well_formed(),
    {
        let zero = big_zero();
        let e_negative = big_lt(&self.public_key.0, &zero);
        let n_positive = big_lt(&zero, &self.public_key.1);
        let d_negative = big_lt(&self.private_key, &zero);
        !e_negative && n_positive && !d_negative
    }

    /// The key pair that belongs to `p` and `q`.
    ///
    /// Fails exactly when the public exponent has no inverse modulo the
    /// totient `(p - 1) * (q - 1)`, or when that totient is not above 1.
    /// Nothing is asked of `p` and `q`: whether they are prime is for the
    /// caller to know.
    pub fn keys_from_primes(p: &BigUint, q: &BigUint) -> (r: Result<Keys, KeyError>)
        ensures
            r is Ok <==> totient(nat_of(*p) as int, nat_of(*q) as int) > 1 && gcd(
                PUBLIC_EXPONENT as int,
                totient(nat_of(*p) as int, nat_of(*q) as int) as nat,
            ) == 1,
            r matches Ok(keys) ==> keys.built_from(nat_of(*p) as int, nat_of(*q) as int)
                && keys.well_formed(),
            r matches Err(e) ==> e == KeyError::KeyConstructionFailure,
    {
        let p_int = big_from_unsigned(p).unwrap();
        let q_int = big_from_unsigned(q).unwrap();
        let one = big_one();
        let n = big_mul(&p_int, &q_int);
        let phi = big_mul(&big_sub(&p_int, &one), &big_sub(&q_int, &one));
        if !big_lt(&one, &phi) {
            return Err(KeyError::KeyConstructionFailure);
        }
        proof {
            lemma_totient_above_one(int_of(p_int), int_of(q_int));
        }
        let e = big_from_u64(PUBLIC_EXPONENT);
        match Self::modular_inverse(&e, &phi) {
            Some(d) => Ok(Keys { public_key: (e, n), private_key: d }),
            None => Err(KeyError::KeyConstructionFailure),
        }
    }

    /// The outcome of one attempt at a key pair: two candidates, and what the
    /// primality test said of each.
    ///
    /// A candidate that did not pass gives `PrimeGenerationFailure`. Two that
    /// passed give what [`Keys::keys_from_primes`] makes of them, together
    /// with the candidates themselves.
    pub fn keys_from_tested_primes(
        p: BigUint,
        p_passed: bool,
        q: BigUint,
        q_passed: bool,
    ) -> (r: Result<(Keys, BigUint, BigUint), KeyError>)
        ensures
            r is Ok <==> p_passed && q_passed
                && totient(nat_of(p) as int, nat_of(q) as int) > 1
                && gcd(PUBLIC_EXPONENT as int, totient(nat_of(p) as int, nat_of(q) as int) as nat)
                == 1,
            r matches Ok(out) ==> out.1 == p && out.2 == q
                && out.0.built_from(nat_of(p) as int, nat_of(q) as int)
                && out.0.well_formed(),
            r matches Err(e) ==> (e == KeyError::PrimeGenerationFailure <==> !(p_passed
                && q_passed)),
    {
        if !p_passed || !q_passed {
            return Err(KeyError::PrimeGenerationFailure);
        }
        match Self::keys_from_primes(&p, &q) {
            Ok(keys) => Ok((keys, p, q)),
            Err(e) => Err(e),
        }
    }

    /// What holds of a key pair and the two primes of `bits` bits each that the
    /// generator returns with it.
    pub open spec fn generated(keys: Keys, p: BigUint, q: BigUint, bits: usize) -> bool {
        &&& keys.built_from(nat_of(p) as int, nat_of(q) as int)
        &&& keys.well_formed()
        &&& has_bit_length(nat_of(p), bits as nat)
        &&& has_bit_length(nat_of(q), bits as nat)
    }

    /// Draws two primes of `bits` bits each and builds their key pair.
    fn generate_once(bits: usize) -> (r: Result<(Keys, BigUint, BigUint), KeyError>)
        ensures
            r matches Ok(out) ==> Self::generated(out.0, out.1, out.2, bits),
            bits < MIN_PRIME_BITS ==> r == Err::<(Keys, BigUint, BigUint), KeyError>(
                KeyError::PrimeGenerationFailure,
            ),
    {
        let p = match new_prime(bits) {
            Ok(p) => p,
            Err(_) => {
                return Err(KeyError::PrimeGenerationFailure);
            },
        };
        let q = match new_prime(bits) {
            Ok(q) => q,
            Err(_) => {
                return Err(KeyError::PrimeGenerationFailure);
            },
        };
        let p_passed = check_prime(&p);
        let q_passed = check_prime(&q);
        Self::keys_from_tested_primes(p, p_passed, q, q_passed)
    }

    /// Generates a key pair from two fresh random primes of `bits` bits each,
    /// and returns it together with the primes.
    ///
    /// Each prime comes from the prime source and must pass its test once
    /// more. If the source gives none, as it does for every size below
    /// [`MIN_PRIME_BITS`], or if one fails the test, the result is
    /// `PrimeGenerationFailure`. If the public exponent is not invertible for
    /// a pair of primes, another pair is drawn, up to [`MAX_ATTEMPTS`] pairs
    /// in all; after that the result is `KeyConstructionFailure`.
    pub fn generate_keys_of_size(bits: usize) -> (r: Result<(Keys, BigUint, BigUint), KeyError>)
        ensures
            r matches Ok(out) ==> Self::generated(out.0, out.1, out.2, bits),
            bits < MIN_PRIME_BITS ==> r == Err::<(Keys, BigUint, BigUint), KeyError>(
                KeyError::PrimeGenerationFailure,
            ),
    {
        let mut attempt: usize = 0;
        while attempt < MAX_ATTEMPTS
            invariant
                attempt <= MAX_ATTEMPTS,
                bits < MIN_PRIME_BITS ==> attempt == 0,
            decreases MAX_ATTEMPTS - attempt,
        {
            match Self::generate_once(bits) {
                Ok(out) => {
                    return Ok(out);
                },
                Err(KeyError::PrimeGenerationFailure) => {
                    return Err(KeyError::PrimeGenerationFailure);
                },
                Err(KeyError::KeyConstructionFailure) => {},
            }
            attempt = attempt + 1;
        }
        Err(KeyError::KeyConstructionFailure)
    }

    /// Generates a key pair from two fresh random primes of [`PRIME_BITS`]
    /// bits each, as [`Keys::generate_keys_of_size`] does, and returns it
    /// together with the primes.
    pub fn generate_keys() -> (r: Result<(Keys, BigUint, BigUint), KeyError>)
        ensures
            r matches Ok(out) ==> Self::generated(out.0, out.1, out.2, PRIME_BITS),
    {
        Self::generate_keys_of_size(PRIME_BITS)
    }
}

} // verus!
