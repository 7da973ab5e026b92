//! Divisibility, greatest common divisors and primes.

use vstd::arithmetic::div_mod::{
    lemma_fundamental_div_mod, lemma_mod_multiples_basic, lemma_small_mod,
};
use vstd::arithmetic::power::pow;
use vstd::prelude::*;

verus! {

/// The absolute value of an integer.
pub open spec fn magnitude(x: int) -> nat {
    if x < 0 {
        (-x) as nat
    } else {
        x as nat
    }
}

/// The greatest common divisor of `a` and `b`, by Euclid's algorithm; 0 when
/// both are 0. [`lemma_gcd_divides`] and [`lemma_gcd_greatest`] show that it is
/// the common divisor that every other common divisor divides.
pub open spec fn gcd(a: int, b: nat) -> nat
    decreases b,
{
    if b == 0 {
        magnitude(a)
    } else {
        gcd(b as int, (a % (b as int)) as nat)
    }
}

/// `base` to the power `exponent`, reduced modulo `modulus`.
pub open spec fn power_mod(base: int, exponent: int, modulus: int) -> int {
    pow(base, exponent as nat) % modulus
}

/// A prime is an integer above 1 that no integer strictly between 1 and itself
/// divides.
pub open spec fn is_prime(p: int) -> bool {
    p > 1 && forall|d: int| 1 < d < p ==> #[trigger] (p % d) != 0
}

/// A multiple of `d` leaves no remainder on division by `d`.
pub proof fn lemma_multiple_mod(d: int, k: int)
    requires
        d > 0,
    ensures
        (d * k) % d == 0,
{
    lemma_mod_multiples_basic(k, d);
    assert(d * k == k * d) by (nonlinear_arith);
}

/// A number that `d` divides is `d` times its quotient by `d`.
pub proof fn lemma_divisor_factor(x: int, d: int)
    requires
        d > 0,
        x % d == 0,
    ensures
        x == d * (x / d),
{
    lemma_fundamental_div_mod(x, d);
}

/// What divides `x` and `y` divides every combination `x * u + y * v`.
pub proof fn lemma_divides_combination(d: int, x: int, y: int, u: int, v: int)
    requires
        d > 0,
        x % d == 0,
        y % d == 0,
    ensures
        (x * u + y * v) % d == 0,
{
    lemma_divisor_factor(x, d);
    lemma_divisor_factor(y, d);
    let xq: int = x / d;
    let yq: int = y / d;
    assert(x * u + y * v == d * (xq * u + yq * v)) by (nonlinear_arith)
        requires
            x == d * xq,
            y == d * yq,
    ;
    lemma_multiple_mod(d, xq * u + yq * v);
}

/// A positive divisor of a positive number is at most that number.
pub proof fn lemma_divisor_bound(x: int, d: int)
    requires
        x > 0,
        d > 0,
        x % d == 0,
    ensures
        d <= x,
{
    if d > x {
        lemma_small_mod(x as nat, d as nat);
    }
}

/// The gcd is 0 only for two zeros; otherwise it divides both numbers.
pub proof fn lemma_gcd_divides(a: int, b: nat)
    ensures
        gcd(a, b) == 0 <==> (a == 0 && b == 0),
        gcd(a, b) > 0 ==> a % (gcd(a, b) as int) == 0 && (b as int) % (gcd(a, b) as int) == 0,
    decreases b,
{
    let g: int = gcd(a, b) as int;
    if b == 0 {
        if a > 0 {
            lemma_multiple_mod(a, 1);
        } else if a < 0 {
            lemma_multiple_mod(-a, -1);
            assert((-a) * (-1) == a) by (nonlinear_arith);
        }
        if g > 0 {
            lemma_multiple_mod(g, 0);
            assert(g * 0 == 0) by (nonlinear_arith);
        }
    } else {
        let r: int = a % (b as int);
        lemma_gcd_divides(b as int, r as nat);
        lemma_fundamental_div_mod(a, b as int);
        lemma_divides_combination(g, b as int, r, a / (b as int), 1);
        assert((b as int) * (a / (b as int)) + r * 1 == a) by (nonlinear_arith)
            requires
                a == (b as int) * (a / (b as int)) + r,
        ;
    }
}

/// Bezout's identity: the gcd is a combination of the two numbers. The lemma
/// returns the two coefficients.
pub proof fn lemma_bezout(a: int, b: nat) -> (c: (int, int))
    ensures
        a * c.0 + b * c.1 == gcd(a, b),
    decreases b,
{
    if b == 0 {
        if a < 0 {
            assert(a * (-1) + 0 * 0 == -a) by (nonlinear_arith);
            (-1, 0)
        } else {
            assert(a * 1 + 0 * 0 == a) by (nonlinear_arith);
            (1, 0)
        }
    } else {
        let bi: int = b as int;
        let r: int = a % bi;
        let q: int = a / bi;
        let (x, y) = lemma_bezout(bi, r as nat);
        lemma_fundamental_div_mod(a, bi);
        let g: int = gcd(a, b) as int;
        assert(a * y + bi * (x - q * y) == g) by (nonlinear_arith)
            requires
                a == bi * q + r,
                bi * x + r * y == g,
        ;
        (y, x - q * y)
    }
}

/// Every common divisor of two numbers divides their gcd.
pub proof fn lemma_gcd_greatest(a: int, b: nat, d: int)
    requires
        d > 0,
        a % d == 0,
        (b as int) % d == 0,
    ensures
        (gcd(a, b) as int) % d == 0,
{
    let (x, y) = lemma_bezout(a, b);
    lemma_divides_combination(d, a, b as int, x, y);
}

/// The gcd of any number with a prime is 1 or the prime itself, and it is the
/// prime exactly when the prime divides the number.
pub proof fn lemma_gcd_with_prime(a: int, p: int)
    requires
        is_prime(p),
    ensures
        a % p == 0 ==> gcd(a, p as nat) == p,
        a % p != 0 ==> gcd(a, p as nat) == 1,
{
    let g: int = gcd(a, p as nat) as int;
    lemma_gcd_divides(a, p as nat);
    lemma_divisor_bound(p, g);
    if a % p == 0 {
        lemma_multiple_mod(p, 1);
        lemma_gcd_greatest(a, p as nat, p);
        lemma_divisor_bound(g, p);
    } else {
        if 1 < g < p {
            assert(p % g != 0);
        }
    }
}

/// Euclid's lemma: a prime that divides a product divides one of the factors.
pub proof fn lemma_prime_divides_product(p: int, a: int, b: int)
    requires
        is_prime(p),
        (a * b) % p == 0,
    ensures
        a % p == 0 || b % p == 0,
{
    if a % p != 0 {
        lemma_gcd_with_prime(a, p);
        let (x, y) = lemma_bezout(a, p as nat);
        lemma_multiple_mod(p, 1);
        lemma_divides_combination(p, a * b, p, x, b * y);
        assert((a * b) * x + p * (b * y) == b) by (nonlinear_arith)
            requires
                a * x + p * y == 1,
        ;
    }
}

/// What two different primes both divide, their product divides.
pub proof fn lemma_two_primes_divide(p: int, q: int, x: int)
    requires
        is_prime(p),
        is_prime(q),
        p != q,
        x % p == 0,
        x % q == 0,
    ensures
        x % (p * q) == 0,
{
    lemma_divisor_factor(x, p);
    let y: int = x / p;
    lemma_prime_divides_product(q, p, y);
    if q < p {
        assert(p % q != 0);
    } else {
        lemma_small_mod(p as nat, q as nat);
    }
    lemma_divisor_factor(y, q);
    let z: int = y / q;
    assert(p * q > 0) by (nonlinear_arith)
        requires
            p > 1,
            q > 1,
    ;
    assert(x == (p * q) * z) by (nonlinear_arith)
        requires
            x == p * y,
            y == q * z,
    ;
    lemma_multiple_mod(p * q, z);
}

} // verus!
