//! The modular inverse, by the extended Euclidean algorithm.

use crate::bigint::{
    big_add, big_clone, big_div, big_eq, big_lt, big_mul, big_one, big_sub, big_zero, int_of,
};
use crate::keys::Keys;
use crate::numbers::gcd;
use num_bigint::BigInt;
use vstd::arithmetic::div_mod::{
    lemma_fundamental_div_mod, lemma_fundamental_div_mod_converse, lemma_mod_multiples_vanish,
    lemma_small_mod,
};
use vstd::prelude::*;

verus! {

/// What the loop of [`Keys::modular_inverse`] keeps true of the two remainders
/// `r0 > r1 >= 0` and of their coefficients `t0`, `t1`, where `s0` and `s1`
/// are the coefficients of the modulus that the loop never computes.
spec fn euclid_state(
    a: int,
    m: int,
    r0: int,
    r1: int,
    t0: int,
    t1: int,
    s0: int,
    s1: int,
) -> bool {
    &&& m > 1
    &&& 0 <= r1 < r0
    &&& r0 == s0 * m + t0 * a
    &&& r1 == s1 * m + t1 * a
    &&& gcd(r0, r1 as nat) == gcd(a, m as nat)
    &&& -m < t0 < m
    &&& ((t0 <= 0 <= t1 && r0 * t1 - r1 * t0 == m) || (t1 <= 0 <= t0 && r1 * t0 - r0 * t1 == m))
}

/// One step of Euclid's algorithm keeps [`euclid_state`].
proof fn lemma_euclid_step(
    a: int,
    m: int,
    r0: int,
    r1: int,
    t0: int,
    t1: int,
    s0: int,
    s1: int,
    q: int,
)
    requires
        euclid_state(a, m, r0, r1, t0, t1, s0, s1),
        r1 != 0,
        q == r0 / r1,
    ensures
        euclid_state(a, m, r1, r0 - q * r1, t1, t0 - q * t1, s1, s0 - q * s1),
        r0 - q * r1 == r0 % r1,
{
    lemma_fundamental_div_mod(r0, r1);
    assert(r0 - q * r1 == r0 % r1) by (nonlinear_arith)
        requires
            r0 == r1 * q + r0 % r1,
    ;
    assert(q >= 1) by (nonlinear_arith)
        requires
            r0 == r1 * q + r0 % r1,
            0 <= r0 % r1 < r1,
            r1 < r0,
    ;
    assert(r0 - q * r1 == (s0 - q * s1) * m + (t0 - q * t1) * a) by (nonlinear_arith)
        requires
            r0 == s0 * m + t0 * a,
            r1 == s1 * m + t1 * a,
    ;
    // The determinant of remainders and coefficients changes its sign.
    assert(r1 * (t0 - q * t1) - (r0 - q * r1) * t1 == -(r0 * t1 - r1 * t0)) by (nonlinear_arith);
    assert(r0 >= 2);
    if t0 <= 0 <= t1 && r0 * t1 - r1 * t0 == m {
        assert(t0 - q * t1 <= 0) by (nonlinear_arith)
            requires
                t0 <= 0,
                0 <= t1,
                q >= 1,
        ;
        assert(2 * t1 <= m) by (nonlinear_arith)
            requires
                r0 * t1 - r1 * t0 == m,
                r0 >= 2,
                r1 >= 0,
                t0 <= 0,
                t1 >= 0,
        ;
    } else {
        assert(t0 - q * t1 >= 0) by (nonlinear_arith)
            requires
                t0 >= 0,
                t1 <= 0,
                q >= 1,
        ;
        assert(-2 * t1 <= m) by (nonlinear_arith)
            requires
                r1 * t0 - r0 * t1 == m,
                r0 >= 2,
                r1 >= 0,
                t0 >= 0,
                t1 <= 0,
        ;
    }
}

/// When the remainder has reached 0, the other one is the gcd, and if that is
/// 1 the coefficient, brought into `[0, m)`, is the inverse.
proof fn lemma_euclid_end(a: int, m: int, r0: int, t0: int, t1: int, s0: int, s1: int)
    requires
        euclid_state(a, m, r0, 0, t0, t1, s0, s1),
    ensures
        r0 == gcd(a, m as nat),
        r0 == 1 ==> (a * t0) % m == 1 && (a * (t0 + m)) % m == 1,
{
    if r0 == 1 {
        assert(a * t0 == m * (-s0) + 1) by (nonlinear_arith)
            requires
                1 == s0 * m + t0 * a,
        ;
        assert(a * (t0 + m) == m * (a - s0) + 1) by (nonlinear_arith)
            requires
                1 == s0 * m + t0 * a,
        ;
        lemma_small_mod(1, m as nat);
        lemma_mod_multiples_vanish(-s0, 1, m);
        lemma_mod_multiples_vanish(a - s0, 1, m);
    }
}

impl Keys {
    /// The inverse of `a` modulo `m`, by the extended Euclidean algorithm.
    ///
    /// Returns the one `d` in `[0, m)` with `a * d = 1 (mod m)` when `a` and `m`
    /// have no common divisor but 1, and `None` when they have one. The
    /// modulus must be above 1; `a` may be any integer.
    pub fn modular_inverse(a: &BigInt, m: &BigInt) -> (r: Option<BigInt>)
        requires
            int_of(*m) > 1,
        ensures
            match r {
                Some(d) => {
                    &&& gcd(int_of(*a), int_of(*m) as nat) == 1
                    &&& 0 <= int_of(d) < int_of(*m)
                    &&& (int_of(*a) * int_of(d)) % int_of(*m) == 1
                },
                None => gcd(int_of(*a), int_of(*m) as nat) != 1,
            },
    {
        let zero = big_zero();
        let one = big_one();
        let ghost av: int = int_of(*a);
        let ghost mv: int = int_of(*m);
        let mut r0 = big_clone(m);
        let mut r1 = Self::residue(a, m);
        let mut t0 = big_zero();
        let mut t1 = big_one();
        let ghost mut s0: int = 1;
        let ghost mut s1: int = -(av / mv);
        proof {
            lemma_fundamental_div_mod(av, mv);
            assert(av % mv == s1 * mv + 1 * av) by (nonlinear_arith)
                requires
                    av == mv * (av / mv) + av % mv,
                    s1 == -(av / mv),
            ;
            assert(mv == 1 * mv + 0 * av) by (nonlinear_arith);
            assert(mv * 1 - (av % mv) * 0 == mv) by (nonlinear_arith);
        }
        while !big_eq(&r1, &zero)
            invariant
                int_of(zero) == 0,
                av == int_of(*a),
                mv == int_of(*m),
                euclid_state(av, mv, int_of(r0), int_of(r1), int_of(t0), int_of(t1), s0, s1),
            decreases int_of(r1),
        {
            let q = big_div(&r0, &r1);
            proof {
                lemma_euclid_step(
                    av,
                    mv,
                    int_of(r0),
                    int_of(r1),
                    int_of(t0),
                    int_of(t1),
                    s0,
                    s1,
                    int_of(q),
                );
            }
            let r2 = big_sub(&r0, &big_mul(&q, &r1));
            let t2 = big_sub(&t0, &big_mul(&q, &t1));
            proof {
                let s2: int = s0 - int_of(q) * s1;
                s0 = s1;
                s1 = s2;
            }
            r0 = r1;
            r1 = r2;
            t0 = t1;
            t1 = t2;
        }
        proof {
            lemma_euclid_end(av, mv, int_of(r0), int_of(t0), int_of(t1), s0, s1);
        }
        if big_lt(&one, &r0) {
            return None;
        }
        if big_lt(&t0, &zero) {
            t0 = big_add(&t0, m);
        }
        Some(t0)
    }

    /// The residue of `a` modulo `m`, in `[0, m)`.
    fn residue(a: &BigInt, m: &BigInt) -> (r: BigInt)
        requires
            int_of(*m) > 0,
        ensures
            int_of(r) == int_of(*a) % int_of(*m),
    {
        let q = big_div(a, m);
        let r = big_sub(a, &big_mul(&q, m));
        let ghost av: int = int_of(*a);
        let ghost mv: int = int_of(*m);
        let ghost qv: int = int_of(q);
        let ghost rv: int = int_of(r);
        proof {
            // The truncated remainder lies strictly between -m and m.
            if av >= 0 {
                lemma_fundamental_div_mod(av, mv);
                assert(av - (av / mv) * mv == av % mv) by (nonlinear_arith)
                    requires
                        av == mv * (av / mv) + av % mv,
                ;
            } else {
                lemma_fundamental_div_mod(-av, mv);
                assert(av - (-((-av) / mv)) * mv == -((-av) % mv)) by (nonlinear_arith)
                    requires
                        -av == mv * ((-av) / mv) + (-av) % mv,
                ;
            }
            assert(-mv < rv < mv);
        }
        if big_lt(&r, &big_zero()) {
            let s = big_add(&r, m);
            proof {
                assert(av == (qv - 1) * mv + (rv + mv)) by (nonlinear_arith)
                    requires
                        rv == av - qv * mv,
                ;
                lemma_fundamental_div_mod_converse(av, mv, qv - 1, rv + mv);
            }
            s
        } else {
            proof {
                assert(av == qv * mv + rv) by (nonlinear_arith)
                    requires
                        rv == av - qv * mv,
                ;
                lemma_fundamental_div_mod_converse(av, mv, qv, rv);
            }
            r
        }
    }
}

} // verus!
