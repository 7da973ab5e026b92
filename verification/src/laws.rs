//! What holds of the scheme as a whole.
//!
//! The laws are stated over the numbers of a key pair and over the
//! specification functions that the contracts of [`Keys`] use, so each of them
//! speaks of what the operations return. They take the primality of `p` and
//! `q` as a premise: key generation cannot promise it, because the prime
//! source only tests it.

use crate::bigint::nat_of;
use crate::encoding::{
    be_nat, is_minimal, lemma_be_bytes_of_be_nat, lemma_be_nat_bound, lemma_be_nat_of_be_bytes,
};
use crate::cryptor::{decryption, encryption};
use crate::fermat::lemma_fermat_cycle;
use crate::hash::{sha256, DIGEST_LEN};
use crate::keys::{totient, Keys};
use crate::numbers::{
    gcd, is_prime, lemma_divides_combination, lemma_divisor_bound, lemma_divisor_factor,
    lemma_gcd_divides, lemma_two_primes_divide, power_mod,
};
use crate::signer::{digest_accepted, digest_signature};
use num_bigint::BigUint;
use vstd::arithmetic::div_mod::{
    lemma_fundamental_div_mod, lemma_mod_bound, lemma_mod_multiples_vanish,
    lemma_mul_mod_noop_left, lemma_mul_mod_noop_right, lemma_small_mod, lemma_sub_mod_noop,
};
use vstd::arithmetic::mul::lemma_mul_upper_bound;
use vstd::arithmetic::power::{lemma_pow_mod_noop, lemma_pow_multiplies, pow};
use vstd::arithmetic::power2::{lemma_pow2_adds, lemma_pow2_strictly_increases, pow2};
use vstd::prelude::*;

verus! {

/// The numbers `e`, `d` and `n` are an RSA key for the primes `p` and `q`: the
/// primes differ, `n` is their product, and the two exponents are inverse to
/// each other modulo the totient.
pub open spec fn rsa_key(p: int, q: int, e: int, d: int, n: int) -> bool {
    &&& is_prime(p)
    &&& is_prime(q)
    &&& p != q
    &&& n == p * q
    &&& e >= 0
    &&& d >= 0
    &&& (e * d) % totient(p, q) == 1
}

/// A number has at most one inverse modulo `m` in `[0, m)`, and it has one only
/// if it has no common divisor with `m` but 1. So what `modular_inverse`
/// returns is the only number that its contract allows.
pub proof fn law_inverse_is_unique(a: int, m: int, x: int, y: int)
    requires
        m > 1,
        0 <= x < m,
        0 <= y < m,
        (a * x) % m == 1,
        (a * y) % m == 1,
    ensures
        x == y,
        gcd(a, m as nat) == 1,
{
    let g: int = gcd(a, m as nat) as int;
    lemma_gcd_divides(a, m as nat);
    // The gcd divides a * x and m, so it divides the remainder 1.
    lemma_fundamental_div_mod(a * x, m);
    lemma_divides_combination(g, a, m, x, -((a * x) / m));
    assert(a * x + m * (-((a * x) / m)) == 1) by (nonlinear_arith)
        requires
            a * x == m * ((a * x) / m) + 1,
    ;
    lemma_divisor_bound(1, g);
    // x = x * (a * y) = (a * x) * y = y, modulo m.
    lemma_mul_mod_noop_right(x, a * y, m);
    lemma_mul_mod_noop_left(a * x, y, m);
    assert(x * (a * y) == (a * x) * y) by (nonlinear_arith);
    assert(x * 1 == x && 1 * y == y) by (nonlinear_arith);
    lemma_small_mod(x as nat, m as nat);
    lemma_small_mod(y as nat, m as nat);
}

/// Modulo a prime `p`, `m^(1 + k * (p - 1) * (q - 1))` is `m`.
proof fn lemma_power_mod_prime(p: int, q: int, k: int, m: int)
    requires
        is_prime(p),
        q >= 1,
        k >= 0,
        m >= 0,
    ensures
        1 + k * ((p - 1) * (q - 1)) >= 1,
        (pow(m, (1 + k * ((p - 1) * (q - 1))) as nat) - m) % p == 0,
{
    let j: int = k * (q - 1);
    assert(j >= 0) by (nonlinear_arith)
        requires
            j == k * (q - 1),
            k >= 0,
            q >= 1,
    ;
    assert(k * ((p - 1) * (q - 1)) == j * (p - 1)) by (nonlinear_arith)
        requires
            j == k * (q - 1),
    ;
    assert(j * (p - 1) >= 0) by (nonlinear_arith)
        requires
            j >= 0,
            p >= 1,
    ;
    lemma_fermat_cycle(p as nat, m as nat, j as nat);
    let x: int = pow(m, (1 + j * (p - 1)) as nat);
    lemma_sub_mod_noop(x, m, p);
    lemma_small_mod(0, p as nat);
}

/// The theorem behind RSA: raising to the power `e * d` changes no number
/// below the modulus.
pub proof fn lemma_rsa_identity(p: int, q: int, e: int, d: int, n: int, m: int)
    requires
        rsa_key(p, q, e, d, n),
        0 <= m < n,
    ensures
        e * d >= 0,
        pow(m, (e * d) as nat) % n == m,
{
    let phi: int = totient(p, q);
    let ed: int = e * d;
    assert(phi > 0) by (nonlinear_arith)
        requires
            phi == (p - 1) * (q - 1),
            p > 1,
            q > 1,
    ;
    assert(ed >= 0) by (nonlinear_arith)
        requires
            ed == e * d,
            e >= 0,
            d >= 0,
    ;
    lemma_fundamental_div_mod(ed, phi);
    lemma_mod_bound(ed, phi);
    let k: int = ed / phi;
    assert(k >= 0) by (nonlinear_arith)
        requires
            ed == phi * k + 1,
            ed >= 0,
            phi > 1,
    ;
    assert(ed == 1 + k * ((p - 1) * (q - 1))) by (nonlinear_arith)
        requires
            ed == phi * k + 1,
            phi == (p - 1) * (q - 1),
    ;
    assert(ed == 1 + k * ((q - 1) * (p - 1))) by (nonlinear_arith)
        requires
            ed == phi * k + 1,
            phi == (p - 1) * (q - 1),
    ;
    lemma_power_mod_prime(p, q, k, m);
    lemma_power_mod_prime(q, p, k, m);
    let x: int = pow(m, ed as nat);
    lemma_two_primes_divide(p, q, x - m);
    // x is m plus a multiple of n, and m is below n.
    assert(n > 0) by (nonlinear_arith)
        requires
            n == p * q,
            p > 1,
            q > 1,
    ;
    lemma_divisor_factor(x - m, n);
    lemma_mod_multiples_vanish((x - m) / n, m, n);
    lemma_small_mod(m as nat, n as nat);
}

/// One exponent undoes the other: for `m` below the modulus,
/// `(m^a mod n)^b mod n` is `m` whenever `a * b` is `e * d`.
proof fn lemma_power_mod_inverts(p: int, q: int, e: int, d: int, n: int, a: int, b: int, m: int)
    requires
        rsa_key(p, q, e, d, n),
        a >= 0,
        b >= 0,
        a * b == e * d,
        0 <= m < n,
    ensures
        power_mod(power_mod(m, a, n), b, n) == m,
{
    lemma_rsa_identity(p, q, e, d, n, m);
    lemma_pow_mod_noop(pow(m, a as nat), b as nat, n);
    lemma_pow_multiplies(m, a as nat, b as nat);
}

/// Decryption undoes encryption: for a key pair that belongs to two different
/// primes, a minimal message whose number is below the modulus comes back
/// from `decrypt(encrypt(message))` byte for byte.
///
/// A message that is not minimal (the empty one, or one that starts with a
/// zero byte and goes on) comes back as the minimal message of the same
/// number, so the law does not hold of it.
pub proof fn law_decrypt_inverts_encrypt(keys: Keys, p: int, q: int, message: Seq<u8>)
    requires
        keys.built_from(p, q),
        is_prime(p),
        is_prime(q),
        p != q,
        is_minimal(message),
        be_nat(message) < keys.n(),
    ensures
        decryption(keys.d(), keys.n(), encryption(keys.e(), keys.n(), message)) == message,
{
    let m: int = be_nat(message) as int;
    lemma_power_mod_inverts(p, q, keys.e(), keys.d(), keys.n(), keys.e(), keys.d(), m);
    lemma_be_bytes_of_be_nat(message);
}

/// Encryption undoes decryption: for a key pair that belongs to two different
/// primes and a ciphertext `c` in `[0, n)`, encrypting what `decrypt` returns
/// gives `c` again.
pub proof fn law_encrypt_inverts_decrypt(keys: Keys, p: int, q: int, c: int)
    requires
        keys.built_from(p, q),
        is_prime(p),
        is_prime(q),
        p != q,
        0 <= c < keys.n(),
    ensures
        encryption(keys.e(), keys.n(), decryption(keys.d(), keys.n(), c)) == c,
{
    assert(keys.d() * keys.e() == keys.e() * keys.d()) by (nonlinear_arith);
    lemma_power_mod_inverts(p, q, keys.e(), keys.d(), keys.n(), keys.d(), keys.e(), c);
    lemma_mod_bound(pow(c, keys.d() as nat), keys.n());
    lemma_be_nat_of_be_bytes(power_mod(c, keys.d(), keys.n()) as nat);
}

/// Encryption looks at the number of a message modulo `n` only: two messages
/// whose numbers leave the same remainder have the same ciphertext, so a
/// message at or above the modulus is not told apart from a smaller one.
pub proof fn law_encryption_reduces_message(e: int, n: int, first: Seq<u8>, second: Seq<u8>)
    requires
        e >= 0,
        n > 0,
        be_nat(first) % (n as nat) == be_nat(second) % (n as nat),
    ensures
        encryption(e, n, first) == encryption(e, n, second),
{
    lemma_pow_mod_noop(be_nat(first) as int, e as nat, n);
    lemma_pow_mod_noop(be_nat(second) as int, e as nat, n);
}

/// A key pair accepts its own signatures: for a key pair that belongs to two
/// different primes and a message whose digest, as a number, is below the
/// modulus, `verify(message, sign(message))` is true.
pub proof fn law_own_signature_accepted(keys: Keys, p: int, q: int, message: Seq<u8>)
    requires
        keys.built_from(p, q),
        is_prime(p),
        is_prime(q),
        p != q,
        be_nat(sha256(message)) < keys.n(),
    ensures
        digest_accepted(
            keys.e(),
            keys.n(),
            sha256(message),
            digest_signature(keys.d(), keys.n(), sha256(message)),
        ),
{
    law_signature_binds_digest(keys, p, q, sha256(message), sha256(message));
}

/// A signature fits one digest only: a signature made on `signed` is accepted
/// for `presented` exactly when both spell out the same number. So
/// `verify(m2, sign(m1))` is false for two messages unless their SHA-256
/// digests collide.
pub proof fn law_signature_binds_digest(
    keys: Keys,
    p: int,
    q: int,
    signed: Seq<u8>,
    presented: Seq<u8>,
)
    requires
        keys.built_from(p, q),
        is_prime(p),
        is_prime(q),
        p != q,
        be_nat(signed) < keys.n(),
    ensures
        digest_accepted(
            keys.e(),
            keys.n(),
            presented,
            digest_signature(keys.d(), keys.n(), signed),
        ) <==> be_nat(presented) == be_nat(signed),
{
    let h: int = be_nat(signed) as int;
    assert(keys.d() * keys.e() == keys.e() * keys.d()) by (nonlinear_arith);
    lemma_power_mod_inverts(p, q, keys.e(), keys.d(), keys.n(), keys.d(), keys.e(), h);
}

/// The modulus of a generated key pair is above every digest, provided the
/// two primes together have more bits than a digest and one: whatever has the
/// length of a SHA-256 digest spells out a number below the modulus, so the
/// premise on the digest in the two laws on signatures holds of every message.
pub proof fn law_generated_modulus_exceeds_digests(
    keys: Keys,
    p: BigUint,
    q: BigUint,
    bits: usize,
    digest: Seq<u8>,
)
    requires
        Keys::generated(keys, p, q, bits),
        2 * (bits - 1) >= 8 * DIGEST_LEN,
        digest.len() == DIGEST_LEN,
    ensures
        be_nat(digest) < keys.n(),
{
    let half: nat = (bits - 1) as nat;
    let low: int = pow2(half) as int;
    lemma_be_nat_bound(digest);
    lemma_pow2_adds(half, half);
    if 256 < half + half {
        lemma_pow2_strictly_increases(256, half + half);
    }
    lemma_mul_upper_bound(low, nat_of(p) as int, low, nat_of(q) as int);
}

} // verus!
