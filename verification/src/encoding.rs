//! Big-endian base-256 encoding of natural numbers.
//!
//! A message is a byte string; the scheme works on the number that the bytes
//! spell out, most significant byte first.

use vstd::arithmetic::power2::{lemma2_to64, lemma_pow2_adds, pow2};
use vstd::prelude::*;

verus! {

/// The number that `bytes` spell out in base 256, most significant byte first.
/// Leading zero bytes do not change it, and no bytes at all give 0.
pub open spec fn be_nat(bytes: Seq<u8>) -> nat
    decreases bytes.len(),
{
    if bytes.len() == 0 {
        0
    } else {
        be_nat(bytes.drop_last()) * 256 + bytes.last() as nat
    }
}

/// The base-256 digits of `n`, most significant first, with no leading zero:
/// the empty sequence for 0.
pub open spec fn be_digits(n: nat) -> Seq<u8>
    decreases n,
{
    if n == 0 {
        Seq::empty()
    } else {
        be_digits(n / 256).push((n % 256) as u8)
    }
}

/// The shortest byte string that spells out `n`: its digits, or one zero byte
/// for 0.
pub open spec fn be_bytes(n: nat) -> Seq<u8> {
    if n == 0 {
        seq![0u8]
    } else {
        be_digits(n)
    }
}

/// A byte string is minimal when it is the shortest one for its number: it is
/// not empty, and it starts with a zero byte only if it is that byte alone.
pub open spec fn is_minimal(bytes: Seq<u8>) -> bool {
    bytes.len() > 0 && (bytes[0] != 0 || bytes.len() == 1)
}

/// A byte string that does not start with a zero byte spells out a positive
/// number, whose digits are the byte string.
proof fn lemma_digits_of_be_nat(bytes: Seq<u8>)
    requires
        bytes.len() > 0,
        bytes[0] != 0,
    ensures
        be_nat(bytes) > 0,
        be_digits(be_nat(bytes)) == bytes,
    decreases bytes.len(),
{
    let n: nat = be_nat(bytes);
    let front: Seq<u8> = bytes.drop_last();
    let last: u8 = bytes.last();
    assert(bytes == front.push(last));
    if front.len() == 0 {
        assert(be_nat(front) == 0);
        assert(n == last as nat);
        assert(be_digits(n / 256) == Seq::<u8>::empty());
        assert(be_digits(n) == front.push(last));
    } else {
        lemma_digits_of_be_nat(front);
        assert(n / 256 == be_nat(front));
        assert(n % 256 == last as nat);
        assert(be_digits(n) == be_digits(be_nat(front)).push(last));
    }
}

/// Writing out the number of a minimal byte string gives the byte string back.
pub proof fn lemma_be_bytes_of_be_nat(bytes: Seq<u8>)
    requires
        is_minimal(bytes),
    ensures
        be_bytes(be_nat(bytes)) == bytes,
{
    if bytes[0] != 0 {
        lemma_digits_of_be_nat(bytes);
    } else {
        assert(bytes.drop_last().len() == 0);
        assert(be_nat(bytes.drop_last()) == 0);
        assert(be_nat(bytes) == 0);
        assert(bytes == seq![0u8]);
    }
}

/// The digits of a number spell out that number, and they do not start with a
/// zero byte.
proof fn lemma_be_nat_of_digits(n: nat)
    ensures
        be_nat(be_digits(n)) == n,
        n > 0 ==> be_digits(n).len() > 0 && be_digits(n)[0] != 0,
    decreases n,
{
    if n > 0 {
        let front: Seq<u8> = be_digits(n / 256);
        let last: u8 = (n % 256) as u8;
        lemma_be_nat_of_digits(n / 256);
        assert(be_digits(n) == front.push(last));
        assert(front.push(last).drop_last() == front);
        assert(front.push(last).last() == last);
        if n / 256 > 0 {
            assert(front.push(last)[0] == front[0]);
        }
    }
}

/// Reading the bytes of a number gives the number back, and the bytes of a
/// number are minimal.
pub proof fn lemma_be_nat_of_be_bytes(n: nat)
    ensures
        be_nat(be_bytes(n)) == n,
        is_minimal(be_bytes(n)),
{
    if n > 0 {
        lemma_be_nat_of_digits(n);
    } else {
        let zero: Seq<u8> = seq![0u8];
        assert(zero.drop_last().len() == 0);
        assert(be_nat(zero.drop_last()) == 0);
        assert(zero.last() == 0);
    }
}

/// A byte string of `k` bytes spells out a number below `2^(8 * k)`.
pub proof fn lemma_be_nat_bound(bytes: Seq<u8>)
    ensures
        be_nat(bytes) < pow2(8 * bytes.len()),
    decreases bytes.len(),
{
    if bytes.len() == 0 {
        lemma2_to64();
    } else {
        let front: Seq<u8> = bytes.drop_last();
        lemma_be_nat_bound(front);
        lemma_pow2_adds(8 * front.len(), 8);
        lemma2_to64();
        let high: int = pow2(8 * front.len()) as int;
        assert(8 * front.len() + 8 == 8 * bytes.len());
        assert(be_nat(front) * 256 + 255 < high * 256) by (nonlinear_arith)
            requires
                be_nat(front) < high,
        ;
    }
}

} // verus!
