//! Escape-time iteration formulas: Mandelbrot, Julia and multi-Julia.
//!
//! Every formula repeats one step rule on a starting point until the
//! squared norm exceeds the fixed bailout radius of 2.0 (squared: 4.0)
//! or an iteration limit runs out, and reports the number of completed
//! iterations.

use crate::complex::{
    cadd, cmul, cpow, in_box, lemma_cmul_in_box, lemma_pow_cap_le, lemma_pow_cap_values,
    pow_cap, sqnorm, Complex, COORD_LIMIT, NORM_LIMIT,
};
use crate::fixed::SCALE;
use vstd::arithmetic::div_mod::lemma_div_multiples_vanish;
use vstd::prelude::*;

verus! {

/// Squared bailout radius in raw fixed-point units (`sqnorm` units):
/// 4.0 scaled by `SCALE * SCALE`.
pub const BAILOUT_RAW: i64 = 4 * SCALE * SCALE;

/// Component magnitude bound that one escape step never exceeds when the
/// rule is well-formed and the input has not escaped.
pub const STEP_LIMIT: i64 = 850000000;

/// Mathematical model of a step rule: either the quadratic step
/// `z * z + c`, or the power step `z^power + offset` with a real offset.
pub enum RuleModel {
    Quad((int, int)),
    Power(nat, int),
}

/// The constants of a rule lie within the accepted coordinate box, and a
/// power rule uses a supported exponent.
pub open spec fn model_ok(m: RuleModel) -> bool {
    match m {
        RuleModel::Quad(c) => in_box(c, COORD_LIMIT as int),
        RuleModel::Power(p, off) => 2 <= p <= 7 && -(COORD_LIMIT as int) <= off
            <= COORD_LIMIT as int,
    }
}

/// One application of a step rule.
pub open spec fn model_step(z: (int, int), m: RuleModel) -> (int, int) {
    match m {
        RuleModel::Quad(c) => cadd(cmul(z, z), c),
        RuleModel::Power(p, off) => cadd(cpow(z, p), (off, 0)),
    }
}

/// The point has left the bailout radius: squared norm above 4.0.
pub open spec fn escaped(z: (int, int)) -> bool {
    sqnorm(z) > BAILOUT_RAW as int
}

/// Number of completed iterations of rule `m` from `z` before escaping,
/// with at most `fuel` iterations; `fuel` itself means no escape occurred.
pub open spec fn escape_count(z: (int, int), m: RuleModel, fuel: nat) -> nat
    decreases fuel,
{
    if escaped(z) {
        0
    } else if fuel == 0 {
        0
    } else {
        1 + escape_count(model_step(z, m), m, (fuel - 1) as nat)
    }
}

/// The escape count never exceeds the fuel.
pub proof fn lemma_escape_count_le_fuel(z: (int, int), m: RuleModel, fuel: nat)
    ensures
        escape_count(z, m, fuel) <= fuel,
    decreases fuel,
{
    if !escaped(z) && fuel > 0 {
        lemma_escape_count_le_fuel(model_step(z, m), m, (fuel - 1) as nat);
    }
}

/// An executable step rule; `model` ties it to its mathematical model.
#[derive(Clone, Copy, Debug, PartialEq, Eq, Structural)]
pub enum StepRule {
    Quad { c: Complex },
    Power { power: u32, offset: i64 },
}

impl StepRule {
    /// The mathematical model of this rule.
    pub open spec fn model(self) -> RuleModel {
        match self {
            StepRule::Quad { c } => RuleModel::Quad(c.model()),
            StepRule::Power { power, offset } => RuleModel::Power(
                power as nat,
                offset as int,
            ),
        }
    }
}

/// A point whose squared norm is within the bailout radius has both
/// components within `2 * SCALE`.
pub proof fn lemma_unescaped_in_box(z: (int, int))
    requires
        !escaped(z),
    ensures
        in_box(z, 2 * SCALE as int),
{
    assert(in_box(z, 2 * SCALE as int)) by (nonlinear_arith)
        requires
            z.0 * z.0 + z.1 * z.1 <= 4 * (SCALE as int) * (SCALE as int),
    ;
}

/// Whether `z` has left the bailout radius.
pub fn is_escaped(z: &Complex) -> (b: bool)
    requires
        in_box(z.model(), NORM_LIMIT as int),
    ensures
        b == escaped(z.model()),
{
    z.squared_norm() > BAILOUT_RAW
}

/// One escape step under `rule`.
fn step(z: Complex, rule: &StepRule) -> (r: Complex)
    requires
        model_ok(rule.model()),
        !escaped(z.model()),
    ensures
        r.model() == model_step(z.model(), rule.model()),
        in_box(r.model(), STEP_LIMIT as int),
{
    proof {
        lemma_unescaped_in_box(z.model());
    }
    match rule {
        StepRule::Quad { c } => {
            let zz = z.multiply(z);
            proof {
                lemma_cmul_in_box(z.model(), z.model(), 2 * SCALE as int, 2 * SCALE as int);
                let s = SCALE as int;
                assert(2 * (2 * s) * (2 * s) == s * (8 * s)) by (nonlinear_arith);
                lemma_div_multiples_vanish(8 * s, s);
            }
            zz.add(*c)
        }
        StepRule::Power { power, offset } => {
            let zp = z.power(*power);
            proof {
                lemma_pow_cap_le(*power as nat, 7);
                lemma_pow_cap_values();
            }
            zp.add(Complex { re: *offset, im: 0 })
        }
    }
}

/// Core escape loop: iterate `rule` from `z0` until escape or `limit`
/// iterations, and return the number of completed iterations.
pub fn escape_steps(z0: Complex, rule: &StepRule, limit: u64) -> (n: u64)
    requires
        model_ok(rule.model()),
        in_box(z0.model(), STEP_LIMIT as int),
    ensures
        n == escape_count(z0.model(), rule.model(), limit as nat),
{
    let mut z = z0;
    let mut i: u64 = 0;
    while i < limit
        invariant
            i <= limit,
            model_ok(rule.model()),
            in_box(z.model(), STEP_LIMIT as int),
            escape_count(z0.model(), rule.model(), limit as nat) == i + escape_count(
                z.model(),
                rule.model(),
                (limit - i) as nat,
            ),
        decreases limit - i,
    {
        if is_escaped(&z) {
            return i;
        }
        z = step(z, rule);
        i = i + 1;
    }
    limit
}

/// The Julia constant of each preset, as a fixed-point pair; unknown
/// presets fall back to preset 3.
pub open spec fn julia_preset_spec(preset: int) -> (int, int) {
    if preset == 1 {
        (-80000, 0)
    } else if preset == 2 {
        (28500, 0)
    } else if preset == 3 {
        (-40000, 60000)
    } else if preset == 4 {
        (45000, 14280)
    } else if preset == 5 {
        (28500, 1000)
    } else if preset == 6 {
        (-70176, -38420)
    } else if preset == 7 {
        (-83500, -23210)
    } else if preset == 8 {
        (-80000, 15600)
    } else if preset == 9 {
        (-72690, 18890)
    } else if preset == 10 {
        (0, -80000)
    } else {
        (-40000, 60000)
    }
}

/// The Julia constant of a preset.
pub fn julia_preset(preset: u64) -> (c: Complex)
    ensures
        c.model() == julia_preset_spec(preset as int),
        in_box(c.model(), COORD_LIMIT as int),
{
    match preset {
        1 => Complex { re: -80000, im: 0 },
        2 => Complex { re: 28500, im: 0 },
        3 => Complex { re: -40000, im: 60000 },
        4 => Complex { re: 45000, im: 14280 },
        5 => Complex { re: 28500, im: 1000 },
        6 => Complex { re: -70176, im: -38420 },
        7 => Complex { re: -83500, im: -23210 },
        8 => Complex { re: -80000, im: 15600 },
        9 => Complex { re: -72690, im: 18890 },
        10 => Complex { re: 0, im: -80000 },
        _ => Complex { re: -40000, im: 60000 },
    }
}

/// Power and fixed-point offset of each multi-Julia preset; presets 2
/// through 7 use their documented offsets, anything else falls back to
/// power 2 with offset 0.279.
pub open spec fn multi_julia_params_spec(preset: int) -> (int, int) {
    if preset == 2 {
        (2, 27900)
    } else if preset == 3 {
        (3, 40000)
    } else if preset == 4 {
        (4, 48400)
    } else if preset == 5 {
        (5, 54400)
    } else if preset == 6 {
        (6, 59000)
    } else if preset == 7 {
        (7, 62600)
    } else {
        (2, 27900)
    }
}

/// Power and offset of a multi-Julia preset.
pub fn multi_julia_params(preset: u64) -> (r: (u32, i64))
    ensures
        (r.0 as int, r.1 as int) == multi_julia_params_spec(preset as int),
        2 <= r.0 <= 7,
        -(COORD_LIMIT as int) <= r.1 <= COORD_LIMIT as int,
{
    match preset {
        2 => (2, 27900),
        3 => (3, 40000),
        4 => (4, 48400),
        5 => (5, 54400),
        6 => (6, 59000),
        7 => (7, 62600),
        _ => (2, 27900),
    }
}

/// Mandelbrot escape time of `c`: iterate `z * z + c` from the origin.
pub fn mandelbrot_escape(c: Complex, limit: u32) -> (n: u32)
    requires
        in_box(c.model(), COORD_LIMIT as int),
    ensures
        n == escape_count((0, 0), RuleModel::Quad(c.model()), limit as nat),
{
    proof {
        lemma_escape_count_le_fuel((0, 0), RuleModel::Quad(c.model()), limit as nat);
    }
    let n = escape_steps(Complex::zero(), &StepRule::Quad { c }, limit as u64);
    n as u32
}

/// Julia escape time: iterate `z * z + c` from the pixel-derived seed
/// `z0` with a fixed constant `c`.
pub fn julia_escape(z0: Complex, c: Complex, limit: u32) -> (n: u32)
    requires
        in_box(z0.model(), COORD_LIMIT as int),
        in_box(c.model(), COORD_LIMIT as int),
    ensures
        n == escape_count(z0.model(), RuleModel::Quad(c.model()), limit as nat),
{
    proof {
        lemma_escape_count_le_fuel(z0.model(), RuleModel::Quad(c.model()), limit as nat);
    }
    let n = escape_steps(z0, &StepRule::Quad { c }, limit as u64);
    n as u32
}

/// Multi-Julia escape time: iterate `z^power + offset` from `z0`, with a
/// real fixed-point offset.
pub fn multi_julia_escape(z0: Complex, power: u32, offset: i64, limit: u32) -> (n: u32)
    requires
        in_box(z0.model(), COORD_LIMIT as int),
        2 <= power <= 7,
        -COORD_LIMIT <= offset <= COORD_LIMIT,
    ensures
        n == escape_count(
            z0.model(),
            RuleModel::Power(power as nat, offset as int),
            limit as nat,
        ),
{
    let rule = StepRule::Power { power, offset };
    proof {
        lemma_escape_count_le_fuel(z0.model(), rule.model(), limit as nat);
    }
    let n = escape_steps(z0, &rule, limit as u64);
    n as u32
}

/// Julia pixel routine: continues counting `iteration` upward from its
/// given value, one step of the preset's formula per count, and stops at
/// escape or at 255.
pub fn pixel_setter(z0: Complex, iteration: u64, randjulia: u64) -> (r: u64)
    requires
        in_box(z0.model(), COORD_LIMIT as int),
    ensures
        iteration >= 255 ==> r == iteration,
        iteration < 255 ==> r == iteration + escape_count(
            z0.model(),
            RuleModel::Quad(julia_preset_spec(randjulia as int)),
            (255 - iteration) as nat,
        ),
{
    if iteration >= 255 {
        return iteration;
    }
    let c = julia_preset(randjulia);
    proof {
        lemma_escape_count_le_fuel(
            z0.model(),
            RuleModel::Quad(c.model()),
            (255 - iteration) as nat,
        );
    }
    let n = escape_steps(z0, &StepRule::Quad { c }, 255 - iteration);
    iteration + n
}

/// Pixel-plane seed of the multi-Julia pixel routine: pixel `(i, j)` of a
/// `w x h` raster mapped into the rectangle [-1.5, 1.5] x [-1, 1].
pub open spec fn multi_pixel_point(w: int, h: int, i: int, j: int) -> (int, int) {
    (
        (3 * (SCALE as int) * (2 * i - w)) / (2 * w),
        ((SCALE as int) * (2 * j - h)) / h,
    )
}

/// Multi-Julia pixel routine: maps pixel `pos` of a raster of size `dims`
/// onto the complex plane and iterates `z * z + (-0.9, 0.27015)`,
/// counting `iteration` downward and stopping at escape or at 1.
pub fn pixel_set_multi(dims: (u32, u32), pos: (u32, u32), iteration: u64) -> (r: u64)
    requires
        1 <= dims.0,
        1 <= dims.1,
        pos.0 <= dims.0,
        pos.1 <= dims.1,
    ensures
        iteration <= 1 ==> r == iteration,
        iteration > 1 ==> r == iteration - escape_count(
            multi_pixel_point(dims.0 as int, dims.1 as int, pos.0 as int, pos.1 as int),
            RuleModel::Quad((-90000, 27015)),
            (iteration - 1) as nat,
        ),
{
    let w = dims.0 as i64;
    let h = dims.1 as i64;
    let i = pos.0 as i64;
    let j = pos.1 as i64;
    proof {
        let s = SCALE as int;
        assert(-((2 * s) * (2 * (w as int))) <= 3 * s * (2 * (i as int) - w as int)
            <= (2 * s) * (2 * (w as int))) by (nonlinear_arith)
            requires
                s == 100000,
                1 <= w as int,
                0 <= i as int <= w as int,
        ;
        crate::fixed::lemma_div_in_range(
            3 * s * (2 * (i as int) - w as int),
            2 * s,
            2 * (w as int),
        );
        assert(-((2 * s) * (h as int)) <= s * (2 * (j as int) - h as int)
            <= (2 * s) * (h as int)) by (nonlinear_arith)
            requires
                s == 100000,
                1 <= h as int,
                0 <= j as int <= h as int,
        ;
        crate::fixed::lemma_div_in_range(s * (2 * (j as int) - h as int), 2 * s, h as int);
    }
    let vx = crate::fixed::floor_div(3 * SCALE * (2 * i - w), 2 * w);
    let vy = crate::fixed::floor_div(SCALE * (2 * j - h), h);
    let z0 = Complex { re: vx, im: vy };
    let c = Complex { re: -90000, im: 27015 };
    if iteration <= 1 {
        return iteration;
    }
    proof {
        lemma_escape_count_le_fuel(
            z0.model(),
            RuleModel::Quad(c.model()),
            (iteration - 1) as nat,
        );
    }
    let n = escape_steps(z0, &StepRule::Quad { c }, iteration - 1);
    iteration - n
}

/// Iterating the quadratic rule with constant 0 from the origin never
/// escapes: the point stays at the origin, so the count always equals the
/// full iteration limit.
pub proof fn lemma_mandelbrot_origin_contained(fuel: nat)
    ensures
        escape_count((0, 0), RuleModel::Quad((0, 0)), fuel) == fuel,
    decreases fuel,
{
    let s = SCALE as int;
    assert(0int / s == 0) by {
        vstd::arithmetic::div_mod::lemma_div_multiples_vanish(0, s);
    }
    if fuel > 0 {
        lemma_mandelbrot_origin_contained((fuel - 1) as nat);
    }
}

/// Iterating the quadratic rule with constant (2, 2) from the origin
/// escapes on the very first iteration.
pub proof fn lemma_mandelbrot_far_escapes(fuel: nat)
    requires
        fuel >= 1,
    ensures
        escape_count(
            (0, 0),
            RuleModel::Quad((2 * SCALE as int, 2 * SCALE as int)),
            fuel,
        ) == 1,
{
    let s = SCALE as int;
    assert(0int / s == 0) by {
        vstd::arithmetic::div_mod::lemma_div_multiples_vanish(0, s);
    }
    let z1 = model_step((0, 0), RuleModel::Quad((2 * s, 2 * s)));
    assert(z1 == (2 * s, 2 * s));
    assert(escaped(z1)) by (nonlinear_arith)
        requires
            z1 == (2 * s, 2 * s),
            s == 100000,
    ;
    assert(escape_count(z1, RuleModel::Quad((2 * s, 2 * s)), (fuel - 1) as nat) == 0);
}

/// The multi-Julia power-2 rule coincides with the quadratic rule whose
/// constant is the same offset on the real axis: both produce the same
/// escape trajectory and count.
pub proof fn lemma_multi_julia_power2_is_quadratic(z: (int, int), off: int, fuel: nat)
    ensures
        escape_count(z, RuleModel::Power(2, off), fuel) == escape_count(
            z,
            RuleModel::Quad((off, 0)),
            fuel,
        ),
    decreases fuel,
{
    assert(cpow(z, 2) == cmul(cpow(z, 1), z));
    assert(model_step(z, RuleModel::Power(2, off)) == model_step(z, RuleModel::Quad((off, 0))));
    if !escaped(z) && fuel > 0 {
        lemma_multi_julia_power2_is_quadratic(
            model_step(z, RuleModel::Power(2, off)),
            off,
            (fuel - 1) as nat,
        );
    }
}

} // verus!
