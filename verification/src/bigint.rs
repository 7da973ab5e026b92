//! The arbitrary-precision integers of `num_bigint`, as the verified code sees them.
//!
//! A `BigInt` or `BigUint` is opaque to the verifier. What it holds is named by
//! [`int_of`] and [`nat_of`], and every operation the library performs on such a
//! value goes through one of the small functions below, whose contract is
//! trusted rather than proved: it restates what `num_bigint` documents.

use crate::encoding::{be_bytes, be_nat};
use crate::numbers::magnitude;
use num_bigint::BigInt;
use num_bigint::BigUint;
use vstd::arithmetic::power::pow;
use vstd::prelude::*;

verus! {

#[verifier::external_type_specification]
#[verifier::external_body]
pub struct ExBigInt(BigInt);

#[verifier::external_type_specification]
#[verifier::external_body]
pub struct ExBigUint(BigUint);

/// The mathematical integer that a `BigInt` holds.
pub uninterp spec fn int_of(x: BigInt) -> int;

/// The natural number that a `BigUint` holds.
pub uninterp spec fn nat_of(x: BigUint) -> nat;

/// Division that rounds towards zero, as the `/` of `BigInt` and of the
/// primitive integers does.
pub open spec fn truncated_quotient(a: int, b: int) -> int {
    if (a >= 0) == (b > 0) {
        magnitude(a) as int / magnitude(b) as int
    } else {
        -(magnitude(a) as int / magnitude(b) as int)
    }
}

/// `num_traits::Zero::zero` for `BigInt`: the integer 0.
#[verifier::external_body]
pub(crate) fn big_zero() -> (r: BigInt)
    ensures
        int_of(r) == 0,
{
    <BigInt as num_traits::Zero>::zero()
}

/// `num_traits::One::one` for `BigInt`: the integer 1.
#[verifier::external_body]
pub(crate) fn big_one() -> (r: BigInt)
    ensures
        int_of(r) == 1,
{
    <BigInt as num_traits::One>::one()
}

/// `BigInt::from(u64)`: the same number as an arbitrary-precision integer.
#[verifier::external_body]
pub(crate) fn big_from_u64(n: u64) -> (r: BigInt)
    ensures
        int_of(r) == n,
{
    BigInt::from(n)
}

/// `Clone::clone` of a `BigInt`: a second value holding the same integer.
#[verifier::external_body]
pub(crate) fn big_clone(x: &BigInt) -> (r: BigInt)
    ensures
        int_of(r) == int_of(*x),
{
    x.clone()
}

/// `==` on `BigInt`: true exactly when both hold the same integer.
#[verifier::external_body]
pub(crate) fn big_eq(a: &BigInt, b: &BigInt) -> (r: bool)
    ensures
        r == (int_of(*a) == int_of(*b)),
{
    a == b
}

/// `<` on `BigInt`: the order of the integers.
#[verifier::external_body]
pub(crate) fn big_lt(a: &BigInt, b: &BigInt) -> (r: bool)
    ensures
        r == (int_of(*a) < int_of(*b)),
{
    a < b
}

/// `+` on two `&BigInt`: the sum.
#[verifier::external_body]
pub(crate) fn big_add(a: &BigInt, b: &BigInt) -> (r: BigInt)
    ensures
        int_of(r) == int_of(*a) + int_of(*b),
{
    a + b
}

/// `-` on two `&BigInt`: the difference.
#[verifier::external_body]
pub(crate) fn big_sub(a: &BigInt, b: &BigInt) -> (r: BigInt)
    ensures
        int_of(r) == int_of(*a) - int_of(*b),
{
    a - b
}

/// `*` on two `&BigInt`: the product.
#[verifier::external_body]
pub(crate) fn big_mul(a: &BigInt, b: &BigInt) -> (r: BigInt)
    ensures
        int_of(r) == int_of(*a) * int_of(*b),
{
    a * b
}

/// `/` on two `&BigInt`: the quotient rounded towards zero. `num_bigint` panics
/// on a zero divisor, which the precondition excludes.
#[verifier::external_body]
pub(crate) fn big_div(a: &BigInt, b: &BigInt) -> (r: BigInt)
    requires
        int_of(*b) != 0,
    ensures
        int_of(r) == truncated_quotient(int_of(*a), int_of(*b)),
{
    a / b
}

/// `BigInt::modpow`, for a positive modulus: `base` to the power `exponent`,
/// reduced into `[0, modulus)`. `num_bigint` panics on a negative exponent and
/// on a zero modulus; the precondition excludes both, and negative moduli too.
#[verifier::external_body]
pub(crate) fn big_modpow(base: &BigInt, exponent: &BigInt, modulus: &BigInt) -> (r: BigInt)
    requires
        int_of(*exponent) >= 0,
        int_of(*modulus) > 0,
    ensures
        int_of(r) == pow(int_of(*base), int_of(*exponent) as nat) % int_of(*modulus),
{
    base.modpow(exponent, modulus)
}

/// `BigInt::from_bytes_be` with `Sign::Plus`: the non-negative integer whose
/// big-endian base-256 digits are `bytes` (0 for no bytes at all).
#[verifier::external_body]
pub(crate) fn big_from_bytes_be(bytes: &[u8]) -> (r: BigInt)
    ensures
        int_of(r) == be_nat(bytes@),
{
    BigInt::from_bytes_be(num_bigint::Sign::Plus, bytes)
}

/// `BigInt::to_bytes_be`, without the sign: the shortest big-endian base-256
/// digits of the absolute value, a single zero byte for 0.
#[verifier::external_body]
pub(crate) fn big_to_bytes_be(x: &BigInt) -> (r: Vec<u8>)
    ensures
        r@ == be_bytes(magnitude(int_of(*x))),
{
    x.to_bytes_be().1
}

/// `ToBigInt::to_bigint` on a `BigUint`: always `Some`, holding the same number.
#[verifier::external_body]
pub(crate) fn big_from_unsigned(x: &BigUint) -> (r: Option<BigInt>)
    ensures
        r is Some,
        int_of(r->0) == nat_of(*x),
{
    num_bigint::ToBigInt::to_bigint(x)
}

} // verus!
