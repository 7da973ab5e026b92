//! The source of large random primes, `glass_pumpkin`.
//!
//! Primality here is probabilistic: a number that the source hands out, or that
//! its test accepts, has passed trial division and randomised tests, which is
//! not a proof. The contracts below therefore say nothing about primality.

use crate::bigint::nat_of;
use num_bigint::BigUint;
use vstd::arithmetic::power2::pow2;
use vstd::prelude::*;

verus! {

#[verifier::external_type_specification]
#[verifier::external_body]
pub struct ExPrimeError(glass_pumpkin::error::Error);

/// `n` is written with exactly `bits` binary digits.
pub open spec fn has_bit_length(n: nat, bits: nat) -> bool {
    bits >= 1 && pow2((bits - 1) as nat) <= n < pow2(bits)
}

/// The smallest size, in bits, that the prime source accepts.
pub const MIN_PRIME_BITS: usize = 128;

/// `glass_pumpkin::prime::new`: a fresh random probable prime. When the call
/// succeeds, the number has exactly `bits` binary digits; it fails when `bits`
/// is below the smallest size the crate accepts, which is 128.
#[verifier::external_body]
pub(crate) fn new_prime(bits: usize) -> (r: Result<BigUint, glass_pumpkin::error::Error>)
    ensures
        r matches Ok(p) ==> has_bit_length(nat_of(p), bits as nat),
        bits < MIN_PRIME_BITS ==> r is Err,
{
    glass_pumpkin::prime::new(bits)
}

/// `glass_pumpkin::prime::check`: whether the candidate passes the crate's
/// primality test. The test draws random bases, so nothing is promised of the
/// answer.
#[verifier::external_body]
pub(crate) fn check_prime(candidate: &BigUint) -> (r: bool) {
    glass_pumpkin::prime::check(candidate)
}

} // verus!
