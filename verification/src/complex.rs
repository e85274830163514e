//! Minimal complex-number arithmetic over fixed-point components.
//!
//! Every operation is stated against a mathematical model in which a
//! complex number is the pair of its fixed-point components as unbounded
//! integers; products are scaled back by one floor division per component.

use crate::fixed::{floor_div, lemma_floor_div_bounds, SCALE};
use vstd::prelude::*;

verus! {

/// Largest complex-plane coordinate magnitude the engine accepts, in
/// fixed-point units (8 real units on either axis).
pub const COORD_LIMIT: i64 = 8 * SCALE;

/// Component magnitude accepted by `multiply`: keeps every intermediate
/// product of two components inside `i64`.
pub const MUL_LIMIT: i64 = 1400000000;

/// Component magnitude accepted by `squared_norm`: keeps the sum of the
/// two squared components inside `i64`.
pub const NORM_LIMIT: i64 = 2000000000;

/// A complex number whose components are fixed-point multiples of
/// `1 / SCALE`.
#[derive(Clone, Copy, Debug, PartialEq, Eq, Structural)]
pub struct Complex {
    pub re: i64,
    pub im: i64,
}

/// Both components of `z` have magnitude at most `b`.
pub open spec fn in_box(z: (int, int), b: int) -> bool {
    -b <= z.0 <= b && -b <= z.1 <= b
}

/// Componentwise sum.
pub open spec fn cadd(a: (int, int), b: (int, int)) -> (int, int) {
    (a.0 + b.0, a.1 + b.1)
}

/// Product of two fixed-point complex numbers: the exact integer products
/// are combined first, then scaled back with one floor division per
/// component.
pub open spec fn cmul(a: (int, int), b: (int, int)) -> (int, int) {
    (
        (a.0 * b.0 - a.1 * b.1) / (SCALE as int),
        (a.0 * b.1 + a.1 * b.0) / (SCALE as int),
    )
}

/// `a` raised to the power `n >= 1` by repeated `cmul`.
pub open spec fn cpow(a: (int, int), n: nat) -> (int, int)
    decreases n,
{
    if n <= 1 {
        a
    } else {
        cmul(cpow(a, (n - 1) as nat), a)
    }
}

/// Squared norm in units of `SCALE * SCALE`: re^2 + im^2 on the raw
/// fixed-point components.
pub open spec fn sqnorm(z: (int, int)) -> int {
    z.0 * z.0 + z.1 * z.1
}

impl Complex {
    /// The pair of fixed-point components as unbounded integers.
    pub open spec fn model(self) -> (int, int) {
        (self.re as int, self.im as int)
    }

    /// The origin of the complex plane.
    pub fn zero() -> (r: Complex)
        ensures
            r.model() == (0int, 0int),
    {
        Complex { re: 0, im: 0 }
    }

    /// Componentwise sum.
    pub fn add(self, other: Complex) -> (r: Complex)
        requires
            in_box(self.model(), 0x2000000000000000),
            in_box(other.model(), 0x2000000000000000),
        ensures
            r.model() == cadd(self.model(), other.model()),
    {
        Complex { re: self.re + other.re, im: self.im + other.im }
    }

    /// Fixed-point complex product.
    pub fn multiply(self, other: Complex) -> (r: Complex)
        requires
            in_box(self.model(), MUL_LIMIT as int),
            in_box(other.model(), MUL_LIMIT as int),
        ensures
            r.model() == cmul(self.model(), other.model()),
    {
        proof {
            let l = MUL_LIMIT as int;
            assert(-(l * l) <= (self.re as int) * (other.re as int) <= l * l
                && -(l * l) <= (self.im as int) * (other.im as int) <= l * l
                && -(l * l) <= (self.re as int) * (other.im as int) <= l * l
                && -(l * l) <= (self.im as int) * (other.re as int) <= l * l)
                by (nonlinear_arith)
                requires
                    in_box(self.model(), l),
                    in_box(other.model(), l),
            ;
        }
        let re = floor_div(self.re * other.re - self.im * other.im, SCALE);
        let im = floor_div(self.re * other.im + self.im * other.re, SCALE);
        Complex { re, im }
    }

    /// Squared norm of the raw components, in units of `SCALE * SCALE`.
    pub fn squared_norm(self) -> (n: i64)
        requires
            in_box(self.model(), NORM_LIMIT as int),
        ensures
            n == sqnorm(self.model()),
    {
        proof {
            let l = NORM_LIMIT as int;
            assert(0 <= (self.re as int) * (self.re as int) <= l * l
                && 0 <= (self.im as int) * (self.im as int) <= l * l)
                by (nonlinear_arith)
                requires
                    in_box(self.model(), l),
            ;
        }
        self.re * self.re + self.im * self.im
    }
}

/// Component bound after `n - 1` fixed-point multiplications of factors
/// drawn from the bailout box (components within `2 * SCALE`).
pub open spec fn pow_cap(n: nat) -> int
    decreases n,
{
    if n <= 1 {
        2 * (SCALE as int)
    } else {
        4 * pow_cap((n - 1) as nat) + 1
    }
}

/// `pow_cap` is positive.
pub proof fn lemma_pow_cap_pos(n: nat)
    ensures
        pow_cap(n) >= 2 * (SCALE as int),
    decreases n,
{
    if n > 1 {
        lemma_pow_cap_pos((n - 1) as nat);
    }
}

/// `pow_cap` grows with its argument.
pub proof fn lemma_pow_cap_le(a: nat, b: nat)
    requires
        a <= b,
    ensures
        pow_cap(a) <= pow_cap(b),
    decreases b,
{
    if a < b && b > 1 {
        lemma_pow_cap_le(a, (b - 1) as nat);
        lemma_pow_cap_pos((b - 1) as nat);
    }
}

/// Concrete values of `pow_cap` at the largest supported powers.
pub proof fn lemma_pow_cap_values()
    ensures
        pow_cap(6) == 204800341,
        pow_cap(7) == 819201365,
{
    reveal_with_fuel(pow_cap, 8);
}

impl Complex {
    /// `self` raised to the power `n` by repeated fixed-point
    /// multiplication, for small positive `n`.
    pub fn power(self, n: u32) -> (r: Complex)
        requires
            1 <= n <= 7,
            in_box(self.model(), 2 * SCALE as int),
        ensures
            r.model() == cpow(self.model(), n as nat),
            in_box(r.model(), pow_cap(n as nat)),
    {
        let mut acc = self;
        let mut k: u32 = 1;
        while k < n
            invariant
                1 <= k <= n <= 7,
                in_box(self.model(), 2 * SCALE as int),
                acc.model() == cpow(self.model(), k as nat),
                in_box(acc.model(), pow_cap(k as nat)),
            decreases n - k,
        {
            proof {
                lemma_pow_cap_pos(k as nat);
                lemma_pow_cap_le(k as nat, 6);
                lemma_pow_cap_values();
            }
            let prev = acc;
            acc = acc.multiply(self);
            proof {
                lemma_cmul_in_box(prev.model(), self.model(), pow_cap(k as nat), 2 * SCALE as int);
                let p = pow_cap(k as nat);
                let s = SCALE as int;
                assert(2 * p * (2 * s) == s * (4 * p)) by (nonlinear_arith);
                vstd::arithmetic::div_mod::lemma_div_multiples_vanish(4 * p, s);
            }
            k = k + 1;
        }
        acc
    }
}

/// The floor divisions inside `cmul` keep the product of boxed operands
/// boxed: operands within `p` and `q` give a product within
/// `2*p*q / SCALE + 1`.
pub proof fn lemma_cmul_in_box(a: (int, int), b: (int, int), p: int, q: int)
    requires
        0 <= p,
        0 <= q,
        in_box(a, p),
        in_box(b, q),
    ensures
        in_box(cmul(a, b), 2 * p * q / (SCALE as int) + 1),
{
    let m = 2 * p * q;
    assert(-m <= a.0 * b.0 - a.1 * b.1 <= m && -m <= a.0 * b.1 + a.1 * b.0 <= m)
        by (nonlinear_arith)
        requires
            0 <= p,
            0 <= q,
            in_box(a, p),
            in_box(b, q),
            m == 2 * p * q,
    ;
    assert(0 <= m) by (nonlinear_arith)
        requires
            0 <= p,
            0 <= q,
            m == 2 * p * q,
    ;
    lemma_floor_div_bounds(a.0 * b.0 - a.1 * b.1, m, SCALE as int);
    lemma_floor_div_bounds(a.0 * b.1 + a.1 * b.0, m, SCALE as int);
}

} // verus!
