//! Fixed-point arithmetic over scaled 64-bit integers.
//!
//! A real number x is represented by the integer closest below `x * SCALE`.
//! All complex-plane coordinates, escape-formula constants and Barnsley
//! transform coefficients are stored in these units.

use vstd::arithmetic::div_mod::{
    lemma_div_is_ordered, lemma_div_multiples_vanish, lemma_div_pos_is_pos,
    lemma_fundamental_div_mod, lemma_fundamental_div_mod_converse_div,
};
use vstd::prelude::*;

verus! {

/// Number of fixed-point units per real unit.
pub const SCALE: i64 = 100000;

/// Magnitude bound under which `floor_div` accepts numerator and divisor.
pub const DIV_LIMIT: i64 = 0x4000000000000000;

/// Floor division of `n` by a positive divisor `d`: rounds toward negative
/// infinity, matching division on mathematical integers.
pub fn floor_div(n: i64, d: i64) -> (q: i64)
    requires
        0 < d < DIV_LIMIT,
        -DIV_LIMIT < n < DIV_LIMIT,
    ensures
        q == n as int / d as int,
{
    if n >= 0 {
        let qu: u64 = (n as u64) / (d as u64);
        proof {
            lemma_fundamental_div_mod(n as int, d as int);
            assert(n as int / d as int <= n as int) by (nonlinear_arith)
                requires
                    0 < d as int,
                    0 <= n as int,
                    n as int == d as int * (n as int / d as int) + n as int % d as int,
                    0 <= n as int % d as int,
            ;
        }
        qu as i64
    } else {
        let m: u64 = (-n) as u64;
        let du: u64 = d as u64;
        let q0: u64 = (m + du - 1) / du;
        proof {
            let mi = m as int;
            let di = d as int;
            let q0i = (mi + di - 1) / di;
            lemma_fundamental_div_mod(mi + di - 1, di);
            // From the decomposition of m + d - 1, the remainder of -m is d - 1 - r0.
            let r0 = (mi + di - 1) % di;
            assert(-mi == (-q0i) * di + (di - 1 - r0)) by (nonlinear_arith)
                requires
                    mi + di - 1 == di * q0i + r0,
            ;
            lemma_fundamental_div_mod_converse_div(-mi, di, -q0i, di - 1 - r0);
            // q0 stays within i64 range: d * q0 <= m + d - 1 and d >= 1 give q0 <= m + d - 1.
            assert(q0i <= mi + di - 1) by (nonlinear_arith)
                requires
                    0 < di,
                    1 <= mi,
                    mi + di - 1 == di * q0i + r0,
                    0 <= r0,
            ;
        }
        -(q0 as i64)
    }
}

/// Division by a positive `d` maps the symmetric interval `[-m*d, m*d]`
/// into `[-m, m]`.
pub proof fn lemma_div_in_range(x: int, m: int, d: int)
    requires
        0 < d,
        0 <= m,
        -(m * d) <= x <= m * d,
    ensures
        -m <= x / d <= m,
{
    lemma_div_multiples_vanish(m, d);
    lemma_div_multiples_vanish(-m, d);
    assert(m * d == d * m) by (nonlinear_arith);
    assert(-(m * d) == d * (-m)) by (nonlinear_arith);
    lemma_div_is_ordered(x, m * d, d);
    lemma_div_is_ordered(-(m * d), x, d);
}

/// Floor division of a value from `[-m, m]` by a positive `d` lies in
/// `[-(m/d) - 1, m/d]`; the extra unit below accounts for rounding toward
/// negative infinity.
pub proof fn lemma_floor_div_bounds(x: int, m: int, d: int)
    requires
        0 < d,
        0 <= m,
        -m <= x <= m,
    ensures
        -(m / d) - 1 <= x / d <= m / d,
{
    lemma_div_is_ordered(x, m, d);
    lemma_div_is_ordered(-m, x, d);
    lemma_fundamental_div_mod(m, d);
    let q = m / d;
    let r = m % d;
    if r == 0 {
        assert(-m == (-q) * d + 0) by (nonlinear_arith)
            requires
                m == d * q + r,
                r == 0,
        ;
        lemma_fundamental_div_mod_converse_div(-m, d, -q, 0);
    } else {
        assert(-m == (-q - 1) * d + (d - r)) by (nonlinear_arith)
            requires
                m == d * q + r,
        ;
        lemma_fundamental_div_mod_converse_div(-m, d, -q - 1, d - r);
    }
}

/// Division of `n` by a positive `d` rounded to the nearest integer, with
/// ties rounded away from zero.
pub open spec fn round_div_spec(n: int, d: int) -> int {
    if n >= 0 {
        (2 * n + d) / (2 * d)
    } else {
        -((2 * (-n) + d) / (2 * d))
    }
}

/// Magnitude bound under which `round_div` accepts numerator and divisor.
pub const ROUND_LIMIT: i64 = 0x1000000000000000;

/// Rounding division: nearest integer to `n / d`, ties away from zero.
pub fn round_div(n: i64, d: i64) -> (q: i64)
    requires
        0 < d < ROUND_LIMIT,
        -ROUND_LIMIT < n < ROUND_LIMIT,
    ensures
        q == round_div_spec(n as int, d as int),
{
    if n >= 0 {
        floor_div(2 * n + d, 2 * d)
    } else {
        let p = floor_div(2 * (-n) + d, 2 * d);
        proof {
            lemma_div_pos_is_pos(2 * (-n) + d, 2 * (d as int));
        }
        -p
    }
}

} // verus!
