//! The greatest common divisor of two naturals, computed by Euclid's algorithm,
//! and the facts about it that reducing a lattice vector needs.

use vstd::prelude::*;
use vstd::arithmetic::div_mod::{lemma_fundamental_div_mod, lemma_truncate_middle};

verus! {

/// The greatest common divisor of `a` and `b`; `gcd(0, 0)` is 0.
pub open spec fn gcd(a: nat, b: nat) -> nat
    decreases b,
{
    if b == 0 {
        a
    } else {
        gcd(b, a % b)
    }
}

/// The gcd divides both arguments: the result holds the two quotients.
pub proof fn lemma_gcd_factors(a: nat, b: nat) -> (q: (nat, nat))
    ensures
        a == gcd(a, b) * q.0,
        b == gcd(a, b) * q.1,
        gcd(a, b) == 0 <==> a == 0 && b == 0,
    decreases b,
{
    if b == 0 {
        assert(a == a * 1) by (nonlinear_arith);
        assert(0 == a * 0) by (nonlinear_arith);
        (1, 0)
    } else {
        let r = a % b;
        let g = gcd(b, r);
        let (m, n) = lemma_gcd_factors(b, r);
        let d = a / b;
        lemma_fundamental_div_mod(a as int, b as int);
        assert(a == g * (m * d + n)) by (nonlinear_arith)
            requires
                a == b * d + r,
                b == g * m,
                r == g * n,
        ;
        (m * d + n, m)
    }
}

/// Every common divisor of `a` and `b` divides their gcd: given the two
/// quotients by `d`, the result is the quotient of the gcd by `d`.
pub proof fn lemma_gcd_greatest(a: nat, b: nat, d: nat, qa: nat, qb: nat) -> (q: nat)
    requires
        a == d * qa,
        b == d * qb,
    ensures
        gcd(a, b) == d * q,
    decreases b,
{
    if b == 0 {
        qa
    } else if d == 0 {
        assert(b == 0) by (nonlinear_arith)
            requires
                b == d * qb,
                d == 0,
        ;
        0
    } else {
        let r = a % b;
        let k = a / b;
        lemma_fundamental_div_mod(a as int, b as int);
        assert(r == d * (qa - qb * k)) by (nonlinear_arith)
            requires
                a == b * k + r,
                a == d * qa,
                b == d * qb,
        ;
        assert(qa - qb * k >= 0) by (nonlinear_arith)
            requires
                r == d * (qa - qb * k),
                r >= 0,
                d > 0,
        ;
        lemma_gcd_greatest(b, r, d, qb, (qa - qb * k) as nat)
    }
}

/// Scaling both arguments scales the gcd.
pub proof fn lemma_gcd_scales(k: nat, a: nat, b: nat)
    requires
        k > 0,
    ensures
        gcd(k * a, k * b) == k * gcd(a, b),
    decreases b,
{
    if b == 0 {
        assert(k * b == 0) by (nonlinear_arith)
            requires
                b == 0,
        ;
    } else {
        assert(k * b > 0) by (nonlinear_arith)
            requires
                k > 0,
                b > 0,
        ;
        lemma_truncate_middle(a as int, k as int, b as int);
        assert((k * a) % (k * b) == k * (a % b));
        lemma_gcd_scales(k, b, a % b);
    }
}

/// The gcd does not depend on the order of its arguments.
pub proof fn lemma_gcd_commutes(a: nat, b: nat)
    ensures
        gcd(a, b) == gcd(b, a),
{
    reveal_with_fuel(gcd, 3);
    if a < b {
        if a != 0 {
            assert(a % b == a) by (nonlinear_arith)
                requires
                    0 <= a < b,
            ;
        }
    } else if b < a {
        if b != 0 {
            assert(b % a == b) by (nonlinear_arith)
                requires
                    0 <= b < a,
            ;
        }
    }
}

/// Euclid's algorithm.
pub fn gcd_u64(a: u64, b: u64) -> (g: u64)
    ensures
        g == gcd(a as nat, b as nat),
{
    let mut x: u64 = a;
    let mut y: u64 = b;
    while y != 0
        invariant
            gcd(x as nat, y as nat) == gcd(a as nat, b as nat),
        decreases y,
    {
        let r: u64 = x % y;
        x = y;
        y = r;
    }
    x
}

} // verus!
