//! Band-based rendering of escape-time fractals into a flat buffer of
//! iteration counts.
//!
//! The image is split into contiguous horizontal bands, one per requested
//! worker; each band is a pure function of its own row range and writes a
//! disjoint slice of the row-major output.  The assembled buffer is fully
//! determined by the pixel space, the fractal kind and the iteration
//! limit, so the band decomposition never changes the output.

use crate::buffer::{OutputBuffer, Rgba};
use crate::color::{
    apply_background, base_pixel_spec, bg_pixel_spec, fractal_pixel, fractal_pixel_spec,
    rgb_color, Scheme,
};
use crate::complex::{in_box, Complex, COORD_LIMIT};
use crate::coords::PixelSpace;
use crate::escape::{
    escape_count, escape_steps, lemma_escape_count_le_fuel, RuleModel, StepRule,
};
use vstd::arithmetic::div_mod::{lemma_fundamental_div_mod, lemma_mod_bound};
use vstd::arithmetic::mul::lemma_mul_inequality;
use vstd::prelude::*;

verus! {

/// Which escape-time fractal to render: the Mandelbrot set, a Julia set
/// with a fixed constant, or a multi-Julia set with a power and a real
/// fixed-point offset.
#[derive(Clone, Copy, Debug, PartialEq, Eq, Structural)]
pub enum FractalKind {
    Mandelbrot,
    Julia { c: Complex },
    MultiJulia { power: u32, offset: i64 },
}

/// The parameters of the kind lie within the accepted ranges.
pub open spec fn kind_ok(k: FractalKind) -> bool {
    match k {
        FractalKind::Mandelbrot => true,
        FractalKind::Julia { c } => in_box(c.model(), COORD_LIMIT as int),
        FractalKind::MultiJulia { power, offset } => 2 <= power <= 7 && -(COORD_LIMIT as int)
            <= offset <= COORD_LIMIT as int,
    }
}

/// Iteration seed of a pixel whose complex-plane point is `p`: the origin
/// for the Mandelbrot set, the point itself for the Julia families.
pub open spec fn kind_seed(k: FractalKind, p: (int, int)) -> (int, int) {
    match k {
        FractalKind::Mandelbrot => (0, 0),
        FractalKind::Julia { c } => p,
        FractalKind::MultiJulia { power, offset } => p,
    }
}

/// Step rule of a pixel whose complex-plane point is `p`.
pub open spec fn kind_rule(k: FractalKind, p: (int, int)) -> RuleModel {
    match k {
        FractalKind::Mandelbrot => RuleModel::Quad(p),
        FractalKind::Julia { c } => RuleModel::Quad(c.model()),
        FractalKind::MultiJulia { power, offset } => RuleModel::Power(
            power as nat,
            offset as int,
        ),
    }
}

/// Escape count of pixel `(x, y)` under fractal kind `k` with the given
/// iteration limit.
pub open spec fn count_at(k: FractalKind, ps: PixelSpace, x: int, y: int, fuel: nat) -> nat {
    let p = ps.point_at(x, y);
    escape_count(kind_seed(k, p), kind_rule(k, p), fuel)
}

/// `buf` is the row-major raster of escape counts of `ps` under `k`:
/// the renderer's full contract, independent of any band decomposition.
pub open spec fn renders_to(buf: Seq<u32>, ps: PixelSpace, k: FractalKind, fuel: nat) -> bool {
    &&& buf.len() == ps.pixel_dims.0 * ps.pixel_dims.1
    &&& forall|x: int, y: int|
        0 <= x < ps.pixel_dims.0 && 0 <= y < ps.pixel_dims.1 ==> buf[y * ps.pixel_dims.0 + x]
            == count_at(k, ps, x, y, fuel)
}

/// Escape count of one pixel.
pub fn count_pixel(ps: &PixelSpace, kind: &FractalKind, x: u32, y: u32, limit: u32) -> (n: u32)
    requires
        ps.wf(),
        kind_ok(*kind),
        x <= ps.pixel_dims.0,
        y <= ps.pixel_dims.1,
    ensures
        n == count_at(*kind, *ps, x as int, y as int, limit as nat),
{
    let p = ps.pixel_to_point((x, y));
    let (seed, rule) = match kind {
        FractalKind::Mandelbrot => (Complex::zero(), StepRule::Quad { c: p }),
        FractalKind::Julia { c } => (p, StepRule::Quad { c: *c }),
        FractalKind::MultiJulia { power, offset } => (
            p,
            StepRule::Power { power: *power, offset: *offset },
        ),
    };
    proof {
        lemma_escape_count_le_fuel(seed.model(), rule.model(), limit as nat);
    }
    let n = escape_steps(seed, &rule, limit as u64);
    n as u32
}

/// Render pixel rows `[row_start, row_end)`: the band's slice of the
/// row-major raster.
pub fn render_band(
    ps: &PixelSpace,
    kind: &FractalKind,
    limit: u32,
    row_start: u32,
    row_end: u32,
) -> (buf: Vec<u32>)
    requires
        ps.wf(),
        kind_ok(*kind),
        row_start <= row_end <= ps.pixel_dims.1,
        (ps.pixel_dims.0 as int) * (row_end - row_start) <= usize::MAX as int,
    ensures
        buf@.len() == (ps.pixel_dims.0 as int) * (row_end - row_start),
        forall|x: int, y: int|
            0 <= x < ps.pixel_dims.0 && row_start <= y < row_end ==> buf@[(y - row_start)
                * ps.pixel_dims.0 + x] == count_at(*kind, *ps, x, y, limit as nat),
{
    let w = ps.pixel_dims.0;
    let mut buf: Vec<u32> = Vec::new();
    let mut y = row_start;
    while y < row_end
        invariant
            ps.wf(),
            kind_ok(*kind),
            row_start <= y <= row_end <= ps.pixel_dims.1,
            w == ps.pixel_dims.0,
            (w as int) * (row_end - row_start) <= usize::MAX as int,
            buf@.len() == (w as int) * (y - row_start),
            forall|xx: int, yy: int|
                0 <= xx < w && row_start <= yy < y ==> buf@[(yy - row_start) * (w as int) + xx]
                    == count_at(*kind, *ps, xx, yy, limit as nat),
        decreases row_end - y,
    {
        let mut x: u32 = 0;
        proof {
            lemma_mul_inequality(y - row_start + 1, row_end - row_start, w as int);
            assert((y - row_start + 1) * (w as int) == (y - row_start) * (w as int) + w)
                by (nonlinear_arith);
        }
        while x < w
            invariant
                ps.wf(),
                kind_ok(*kind),
                row_start <= y < row_end <= ps.pixel_dims.1,
                w == ps.pixel_dims.0,
                0 <= x <= w,
                (y - row_start) * (w as int) + w <= usize::MAX as int,
                buf@.len() == (w as int) * (y - row_start) + x,
                forall|xx: int, yy: int|
                    0 <= xx < w && row_start <= yy < y ==> buf@[(yy - row_start) * (w as int)
                        + xx] == count_at(*kind, *ps, xx, yy, limit as nat),
                forall|xx: int|
                    0 <= xx < x ==> buf@[(y - row_start) * (w as int) + xx] == count_at(
                        *kind,
                        *ps,
                        xx,
                        y as int,
                        limit as nat,
                    ),
            decreases w - x,
        {
            let n = count_pixel(ps, kind, x, y, limit);
            proof {
                assert((w as int) * (y - row_start) == (y - row_start) * (w as int))
                    by (nonlinear_arith);
            }
            let ghost pre = buf@;
            buf.push(n);
            proof {
                assert forall|xx: int, yy: int|
                    0 <= xx < w && row_start <= yy < y implies buf@[(yy - row_start) * (w as int)
                    + xx] == count_at(*kind, *ps, xx, yy, limit as nat) by {
                    assert(0 <= (yy - row_start) * (w as int) + xx < (w as int) * (y
                        - row_start)) by (nonlinear_arith)
                        requires
                            0 < w,
                            0 <= xx < w,
                            row_start <= yy,
                            yy + 1 <= y,
                    ;
                    assert(buf@[(yy - row_start) * (w as int) + xx] == pre[(yy - row_start) * (
                    w as int) + xx]);
                }
            }
            x = x + 1;
        }
        proof {
            assert((w as int) * (y + 1 - row_start) == (w as int) * (y - row_start) + w)
                by (nonlinear_arith);
        }
        y = y + 1;
    }
    proof {
        assert((w as int) * (row_end - row_start) == (row_end - row_start) * (w as int))
            by (nonlinear_arith);
    }
    buf
}

/// Start row of band `i` when each of the first bands holds `dh` rows of
/// an image `h` rows tall.
pub open spec fn band_row(i: int, dh: int, h: int) -> int {
    if i * dh > h {
        h
    } else {
        i * dh
    }
}

/// Render the whole image as `thread_count` contiguous horizontal bands
/// of `height / thread_count` rows each, the last band absorbing any
/// remainder, and assemble the bands in order into one row-major buffer.
///
/// The contract `renders_to` does not mention `thread_count`: the band
/// decomposition never changes the output.
pub fn render(ps: &PixelSpace, kind: &FractalKind, limit: u32, thread_count: u32) -> (buf: Vec<
    u32,
>)
    requires
        ps.wf(),
        kind_ok(*kind),
        1 <= thread_count,
        (ps.pixel_dims.0 as int) * (ps.pixel_dims.1 as int) <= usize::MAX as int,
    ensures
        renders_to(buf@, *ps, *kind, limit as nat),
{
    let w = ps.pixel_dims.0;
    let h = ps.pixel_dims.1;
    let dh = h / thread_count;
    let mut buf: Vec<u32> = Vec::new();
    let mut cur: u32 = 0;
    let mut i: u32 = 0;
    while i < thread_count
        invariant
            ps.wf(),
            kind_ok(*kind),
            w == ps.pixel_dims.0,
            h == ps.pixel_dims.1,
            1 <= thread_count,
            dh == h / thread_count,
            i <= thread_count,
            cur <= h,
            i < thread_count ==> cur == band_row(i as int, dh as int, h as int),
            i == thread_count ==> cur == h,
            (w as int) * (h as int) <= usize::MAX as int,
            buf@.len() == (w as int) * (cur as int),
            forall|x: int, y: int|
                0 <= x < w && 0 <= y < cur ==> buf@[y * (w as int) + x] == count_at(
                    *kind,
                    *ps,
                    x,
                    y,
                    limit as nat,
                ),
        decreases thread_count - i,
    {
        let end: u32 = if i == thread_count - 1 {
            h
        } else {
            proof {
                assert((i as int + 1) * (dh as int) <= 0xFFFFFFFF * 0xFFFFFFFF)
                    by (nonlinear_arith)
                    requires
                        0 <= i as int + 1 <= 0xFFFFFFFF,
                        0 <= dh <= 0xFFFFFFFF,
                ;
            }
            let e = (i as u64 + 1) * (dh as u64);
            if e > h as u64 {
                h
            } else {
                e as u32
            }
        };
        proof {
            assert((i as int + 1) * (dh as int) >= i as int * dh as int) by (nonlinear_arith)
                requires
                    dh >= 0,
            ;
            assert(cur <= end);
            lemma_mul_inequality(end - cur, h as int, w as int);
            assert((w as int) * (end - cur) == (end - cur) * (w as int)) by (nonlinear_arith);
            assert((w as int) * (h as int) == (h as int) * (w as int)) by (nonlinear_arith);
        }
        let mut part = render_band(ps, kind, limit, cur, end);
        let ghost old_buf = buf@;
        buf.append(&mut part);
        proof {
            assert forall|x: int, y: int| 0 <= x < w && 0 <= y < end implies buf@[y * (w as int)
                + x] == count_at(*kind, *ps, x, y, limit as nat) by {
                if y < cur {
                    assert(y * (w as int) + x < (w as int) * (cur as int)) by (nonlinear_arith)
                        requires
                            0 <= x < w,
                            0 <= y,
                            y + 1 <= cur,
                    ;
                    assert(buf@[y * (w as int) + x] == old_buf[y * (w as int) + x]);
                } else {
                    assert((w as int) * (cur as int) + ((y - cur) * (w as int) + x) == y * (
                    w as int) + x) by (nonlinear_arith);
                    assert(0 <= (y - cur) * (w as int) + x < (w as int) * (end - cur))
                        by (nonlinear_arith)
                        requires
                            0 <= x < w,
                            cur <= y,
                            y + 1 <= end,
                    ;
                }
            }
            assert((w as int) * (cur as int) + (w as int) * (end - cur) == (w as int) * (
            end as int)) by (nonlinear_arith);
        }
        cur = end;
        i = i + 1;
    }
    buf
}

/// Final color of pixel `(x, y)` of a full escape-time render: the
/// background pixel (or the zeroed pixel where the background leaves it
/// untouched) with the truncated iteration count written into the
/// channels the scheme's color selects.
pub open spec fn image_pixel_spec(
    ps: PixelSpace,
    k: FractalKind,
    fuel: nat,
    s: Scheme,
    x: int,
    y: int,
) -> Rgba {
    fractal_pixel_spec(
        s.color,
        (count_at(k, ps, x, y, fuel) % 256) as u8,
        base_pixel_spec(s, x, y),
    )
}

/// Render a complete image: fill a fresh buffer with the scheme's
/// background, compute every pixel's escape count in bands, and write
/// the scheme's fractal color over the background.
pub fn render_image(
    ps: &PixelSpace,
    kind: &FractalKind,
    limit: u32,
    scheme: &Scheme,
    thread_count: u32,
) -> (buf: OutputBuffer)
    requires
        ps.wf(),
        kind_ok(*kind),
        rgb_color(scheme.color),
        1 <= thread_count,
        4 * (ps.pixel_dims.0 as int) * (ps.pixel_dims.1 as int) <= usize::MAX as int,
    ensures
        buf.wf(),
        buf.width == ps.pixel_dims.0,
        buf.height == ps.pixel_dims.1,
        forall|x: int, y: int|
            0 <= x < ps.pixel_dims.0 && 0 <= y < ps.pixel_dims.1 ==> buf.pixel_is(
                x,
                y,
                image_pixel_spec(*ps, *kind, limit as nat, *scheme, x, y),
            ),
{
    let w = ps.pixel_dims.0;
    let h = ps.pixel_dims.1;
    let mut buf = OutputBuffer::new(w, h);
    apply_background(&mut buf, scheme);
    proof {
        assert forall|x: int, y: int| 0 <= x < w && 0 <= y < h implies buf.pixel_is(
            x,
            y,
            base_pixel_spec(*scheme, x, y),
        ) by {
            buf.lemma_byte_at_range(x, y, 0);
            buf.lemma_byte_at_range(x, y, 1);
            buf.lemma_byte_at_range(x, y, 2);
            buf.lemma_byte_at_range(x, y, 3);
        }
        assert((w as int) * (h as int) * 4 == 4 * (w as int) * (h as int)) by (nonlinear_arith);
        assert(0 <= (w as int) * (h as int)) by (nonlinear_arith);
    }
    let counts = render(ps, kind, limit, thread_count);
    let mut y: u32 = 0;
    while y < h
        invariant
            ps.wf(),
            kind_ok(*kind),
            rgb_color(scheme.color),
            buf.wf(),
            buf.width == w,
            buf.height == h,
            w == ps.pixel_dims.0,
            h == ps.pixel_dims.1,
            y <= h,
            (w as int) * (h as int) <= usize::MAX as int,
            renders_to(counts@, *ps, *kind, limit as nat),
            forall|xx: int, yy: int|
                0 <= xx < w && 0 <= yy < y ==> buf.pixel_is(
                    xx,
                    yy,
                    image_pixel_spec(*ps, *kind, limit as nat, *scheme, xx, yy),
                ),
            forall|xx: int, yy: int|
                0 <= xx < w && y <= yy < h ==> buf.pixel_is(
                    xx,
                    yy,
                    base_pixel_spec(*scheme, xx, yy),
                ),
        decreases h - y,
    {
        let mut x: u32 = 0;
        while x < w
            invariant
                ps.wf(),
                kind_ok(*kind),
                rgb_color(scheme.color),
                buf.wf(),
                buf.width == w,
                buf.height == h,
                w == ps.pixel_dims.0,
                h == ps.pixel_dims.1,
                y < h,
                x <= w,
                (w as int) * (h as int) <= usize::MAX as int,
                renders_to(counts@, *ps, *kind, limit as nat),
                forall|xx: int, yy: int|
                    0 <= xx < w && (0 <= yy < y || (yy == y && 0 <= xx < x)) ==> buf.pixel_is(
                        xx,
                        yy,
                        image_pixel_spec(*ps, *kind, limit as nat, *scheme, xx, yy),
                    ),
                forall|xx: int, yy: int|
                    0 <= xx < w && (yy > y && yy < h || (yy == y && x <= xx < w))
                        ==> buf.pixel_is(xx, yy, base_pixel_spec(*scheme, xx, yy)),
            decreases w - x,
        {
            proof {
                assert(0 <= ((y as int) * (w as int) + x as int) && ((y as int) * (w as int)
                    + x as int) < (w as int) * (h as int)) by (nonlinear_arith)
                    requires
                        0 <= (x as int) < (w as int),
                        0 <= y as int,
                        y as int + 1 <= h as int,
                ;
                assert((y as int) * (w as int) + x as int == (y as int) * (
                ps.pixel_dims.0 as int) + x as int);
            }
            let idx: usize = (y as usize) * (w as usize) + (x as usize);
            let n: u32 = counts[idx];
            let base = buf.get_pixel(x, y);
            let p = fractal_pixel(scheme.color, (n % 256) as u8, base);
            buf.set_pixel(x, y, p);
            x = x + 1;
        }
        y = y + 1;
    }
    buf
}

/// Banding idempotence: two buffers that both satisfy the renderer's
/// contract for the same pixel space, fractal kind and limit are equal,
/// whatever band decompositions produced them.
pub proof fn lemma_render_output_unique(
    a: Seq<u32>,
    b: Seq<u32>,
    ps: PixelSpace,
    k: FractalKind,
    fuel: nat,
)
    requires
        ps.wf(),
        renders_to(a, ps, k, fuel),
        renders_to(b, ps, k, fuel),
    ensures
        a == b,
{
    let w = ps.pixel_dims.0 as int;
    let h = ps.pixel_dims.1 as int;
    assert forall|idx: int| 0 <= idx < a.len() implies a[idx] == b[idx] by {
        lemma_fundamental_div_mod(idx, w);
        lemma_mod_bound(idx, w);
        let x = idx % w;
        let y = idx / w;
        assert(y < h) by (nonlinear_arith)
            requires
                idx < w * h,
                idx == w * y + x,
                0 <= x < w,
                0 < w,
        ;
        assert(0 <= y) by (nonlinear_arith)
            requires
                0 <= idx,
                idx == w * y + x,
                0 <= x < w,
                0 < w,
        ;
        assert(idx == y * w + x) by (nonlinear_arith)
            requires
                idx == w * y + x,
        ;
        assert(a[y * w + x] == count_at(k, ps, x, y, fuel));
        assert(b[y * w + x] == count_at(k, ps, x, y, fuel));
    }
    assert(a =~= b);
}

} // verus!
