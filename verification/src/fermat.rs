//! Fermat's little theorem, by way of the binomial theorem.
//!
//! For a prime `p`, every binomial coefficient of `p` but the first and the
//! last is a multiple of `p`. So `(a + 1)^p` and `a^p + 1` leave the same
//! remainder, and `a^p` leaves the remainder of `a`, by induction on `a`.

use crate::numbers::{
    is_prime, lemma_divisor_factor, lemma_multiple_mod, lemma_prime_divides_product,
};
use vstd::arithmetic::div_mod::{
    lemma_add_mod_noop, lemma_add_mod_noop_right, lemma_mod_multiples_vanish,
    lemma_mul_mod_noop_left, lemma_small_mod,
};
use vstd::arithmetic::power::{lemma0_pow, lemma_pow0, lemma_pow1, lemma_pow_adds, pow};
use vstd::prelude::*;

verus! {

/// The binomial coefficient "`n` choose `k`", by Pascal's rule.
pub open spec fn binomial(n: nat, k: nat) -> nat
    decreases n,
{
    if k == 0 {
        1
    } else if n == 0 {
        0
    } else {
        binomial((n - 1) as nat, (k - 1) as nat) + binomial((n - 1) as nat, k)
    }
}

/// The first `j + 1` terms of the expansion of `(a + 1)^n`: the sum of
/// `binomial(n, i) * a^i` for `i` from 0 to `j`.
pub open spec fn binomial_sum(n: nat, a: int, j: nat) -> int
    decreases j,
{
    binomial(n, j) * pow(a, j) + if j == 0 {
        0
    } else {
        binomial_sum(n, a, (j - 1) as nat)
    }
}

/// `a` times the terms before the `j`-th.
spec fn shifted_sum(n: nat, a: int, j: nat) -> int {
    if j == 0 {
        0
    } else {
        a * binomial_sum(n, a, (j - 1) as nat)
    }
}

/// One more factor: `a^(i + 1) = a * a^i`.
proof fn lemma_pow_step(a: int, i: nat)
    ensures
        pow(a, i + 1) == a * pow(a, i),
{
    reveal(pow);
}

/// There is no way to choose more than there is.
pub proof fn lemma_binomial_above(n: nat, k: nat)
    requires
        k > n,
    ensures
        binomial(n, k) == 0,
    decreases n,
{
    if n > 0 {
        lemma_binomial_above((n - 1) as nat, (k - 1) as nat);
        lemma_binomial_above((n - 1) as nat, k);
    }
}

/// There is one way to choose everything.
pub proof fn lemma_binomial_all(n: nat)
    ensures
        binomial(n, n) == 1,
    decreases n,
{
    if n > 0 {
        lemma_binomial_all((n - 1) as nat);
        lemma_binomial_above((n - 1) as nat, n);
    }
}

/// The absorption identity: `k * C(n, k) = n * C(n - 1, k - 1)`.
pub proof fn lemma_binomial_absorption(n: nat, k: nat)
    requires
        n >= 1,
        k >= 1,
    ensures
        k * binomial(n, k) == n * binomial((n - 1) as nat, (k - 1) as nat),
    decreases n,
{
    let up: int = binomial((n - 1) as nat, (k - 1) as nat) as int;
    let side: int = binomial((n - 1) as nat, k) as int;
    assert(binomial(n, k) == up + side);
    if n == 1 {
        lemma_binomial_above(0, k);
        if k > 1 {
            lemma_binomial_above(0, (k - 1) as nat);
        }
        assert(k * (up + side) == 1 * up) by (nonlinear_arith)
            requires
                side == 0,
                k == 1 || up == 0,
        ;
    } else {
        let n1: int = n - 1;
        let c1: int = binomial((n - 2) as nat, (k - 1) as nat) as int;
        lemma_binomial_absorption((n - 1) as nat, k);
        assert(k * side == n1 * c1);
        if k == 1 {
            assert(c1 == 1);
            assert(up == 1);
            assert(k * (up + side) == n * up) by (nonlinear_arith)
                requires
                    k == 1,
                    up == 1,
                    k * side == n1 * c1,
                    c1 == 1,
                    n1 == n - 1,
            ;
        } else {
            let c2: int = binomial((n - 2) as nat, (k - 2) as nat) as int;
            lemma_binomial_absorption((n - 1) as nat, (k - 1) as nat);
            assert((k - 1) * up == n1 * c2);
            assert(up == c2 + c1);
            assert(k * (up + side) == n * up) by (nonlinear_arith)
                requires
                    k * side == n1 * c1,
                    (k - 1) * up == n1 * c2,
                    up == c2 + c1,
                    n1 == n - 1,
            ;
        }
    }
}

/// A prime divides each of its binomial coefficients except the two ends.
pub proof fn lemma_prime_divides_binomial(p: nat, k: nat)
    requires
        is_prime(p as int),
        0 < k < p,
    ensures
        binomial(p, k) % p == 0,
{
    let b: int = binomial(p, k) as int;
    let c: int = binomial((p - 1) as nat, (k - 1) as nat) as int;
    lemma_binomial_absorption(p, k);
    lemma_multiple_mod(p as int, c);
    assert((k * b) % (p as int) == 0);
    lemma_prime_divides_product(p as int, k as int, b);
    lemma_small_mod(k, p);
}

/// Pascal's rule, summed: the terms of `(a + 1)^n` up to the `j`-th, plus `a`
/// times those before the `j`-th, are the terms of `(a + 1)^(n + 1)` up to
/// the `j`-th.
proof fn lemma_sum_pascal(n: nat, a: int, j: nat)
    ensures
        shifted_sum(n, a, j) + binomial_sum(n, a, j) == binomial_sum(n + 1, a, j),
    decreases j,
{
    if j == 0 {
        lemma_pow0(a);
    } else {
        let j1: nat = (j - 1) as nat;
        lemma_sum_pascal(n, a, j1);
        lemma_pow_step(a, j1);
        let pj: int = pow(a, j);
        let pj1: int = pow(a, j1);
        let low: int = binomial(n, j1) as int;
        let high: int = binomial(n, j) as int;
        let rest: int = if j1 == 0 {
            0
        } else {
            binomial_sum(n, a, (j1 - 1) as nat)
        };
        let before: int = binomial_sum(n, a, j1);
        assert(before == low * pj1 + rest);
        assert(shifted_sum(n, a, j1) == a * rest) by (nonlinear_arith)
            requires
                shifted_sum(n, a, j1) == (if j1 == 0 {
                    0
                } else {
                    a * rest
                }),
                j1 == 0 ==> rest == 0,
        ;
        assert(binomial(n + 1, j) == low + high);
        assert(a * before + (high * pj + before) == (low + high) * pj + (a * rest + before))
            by (nonlinear_arith)
            requires
                before == low * pj1 + rest,
                pj == a * pj1,
        ;
    }
}

/// The binomial theorem for `(a + 1)^n`.
pub proof fn lemma_binomial_theorem(a: int, n: nat)
    ensures
        pow(a + 1, n) == binomial_sum(n, a, n),
    decreases n,
{
    if n == 0 {
        lemma_pow0(a + 1);
        lemma_pow0(a);
    } else {
        let m: nat = (n - 1) as nat;
        lemma_binomial_theorem(a, m);
        lemma_pow_step(a + 1, m);
        lemma_sum_pascal(m, a, n);
        lemma_binomial_above(m, n);
        let s: int = binomial_sum(m, a, m);
        assert(binomial_sum(m, a, n) == s) by {
            assert(binomial(m, n) * pow(a, n) == 0) by (nonlinear_arith)
                requires
                    binomial(m, n) == 0,
            ;
        }
        assert((a + 1) * s == a * s + s) by (nonlinear_arith);
    }
}

/// Modulo a prime `p`, the terms of `(a + 1)^p` before the last add up to 1.
proof fn lemma_sum_mod_prime(p: nat, a: int, j: nat)
    requires
        is_prime(p as int),
        j < p,
    ensures
        binomial_sum(p, a, j) % (p as int) == 1,
    decreases j,
{
    let pi: int = p as int;
    if j == 0 {
        lemma_pow0(a);
        lemma_small_mod(1, p);
    } else {
        lemma_sum_mod_prime(p, a, (j - 1) as nat);
        lemma_prime_divides_binomial(p, j);
        let b: int = binomial(p, j) as int;
        let before: int = binomial_sum(p, a, (j - 1) as nat);
        lemma_divisor_factor(b, pi);
        let c: int = b / pi;
        assert(b * pow(a, j) == pi * (c * pow(a, j))) by (nonlinear_arith)
            requires
                b == pi * c,
        ;
        lemma_mod_multiples_vanish(c * pow(a, j), before, pi);
    }
}

/// Modulo a prime `p`, raising to the power `p` goes through a sum with 1:
/// `(a + 1)^p = a^p + 1 (mod p)`.
pub proof fn lemma_power_of_successor(p: nat, a: int)
    requires
        is_prime(p as int),
    ensures
        pow(a + 1, p) % (p as int) == (pow(a, p) + 1) % (p as int),
{
    let pi: int = p as int;
    lemma_binomial_theorem(a, p);
    lemma_binomial_all(p);
    lemma_sum_mod_prime(p, a, (p - 1) as nat);
    let before: int = binomial_sum(p, a, (p - 1) as nat);
    assert(binomial(p, p) * pow(a, p) == pow(a, p)) by (nonlinear_arith)
        requires
            binomial(p, p) == 1,
    ;
    assert(pow(a + 1, p) == pow(a, p) + before);
    lemma_add_mod_noop_right(pow(a, p), before, pi);
}

/// Fermat's little theorem: for a prime `p`, `a^p = a (mod p)`.
pub proof fn lemma_fermat(p: nat, a: nat)
    requires
        is_prime(p as int),
    ensures
        pow(a as int, p) % (p as int) == a % p,
    decreases a,
{
    let pi: int = p as int;
    if a == 0 {
        lemma0_pow(p);
        lemma_small_mod(0, p);
    } else {
        let b: int = a - 1;
        lemma_fermat(p, b as nat);
        lemma_power_of_successor(p, b);
        lemma_add_mod_noop(pow(b, p), 1, pi);
        lemma_add_mod_noop(b, 1, pi);
    }
}

/// For a prime `p`, adding a multiple of `p - 1` to the exponent 1 changes
/// nothing modulo `p`: `a^(1 + j * (p - 1)) = a (mod p)`.
pub proof fn lemma_fermat_cycle(p: nat, a: nat, j: nat)
    requires
        is_prime(p as int),
    ensures
        pow(a as int, 1 + j * (p - 1) as nat) % (p as int) == a % p,
    decreases j,
{
    let pi: int = p as int;
    let base: int = a as int;
    let step: nat = (p - 1) as nat;
    if j == 0 {
        assert(1 + 0 * step == 1) by (nonlinear_arith);
        lemma_pow1(base);
    } else {
        let prev: nat = ((j - 1) * step) as nat;
        assert((j - 1) * step >= 0) by (nonlinear_arith)
            requires
                j >= 1,
                step >= 0,
        ;
        assert(1 + j * step == p + prev) by (nonlinear_arith)
            requires
                prev == (j - 1) * step,
                step == p - 1,
        ;
        lemma_fermat_cycle(p, a, (j - 1) as nat);
        lemma_fermat(p, a);
        lemma_pow_adds(base, p, prev);
        lemma_pow_step(base, prev);
        let x: int = pow(base, p);
        let y: int = pow(base, prev);
        // x * y = a * y (mod p), and a * y is the power with one cycle less.
        lemma_mul_mod_noop_left(x, y, pi);
        lemma_mul_mod_noop_left(base, y, pi);
        assert(pow(base, 1 + prev) == base * y) by {
            assert(1 + prev == prev + 1);
        }
    }
}

} // verus!
