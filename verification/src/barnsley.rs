//! The Barnsley fern: a stochastic iterated function system.
//!
//! Starting from the origin, each iteration draws a uniform value,
//! selects one of four affine transforms by fixed probability
//! thresholds (1%, 7%, 7% and the remaining 85%), applies it, and
//! records the point.  Points are then scaled onto the raster; points
//! that fall outside it are discarded.

use crate::buffer::{OutputBuffer, Rgba};
use crate::color::{apply_background, base_pixel_spec, color_rgb_spec, color_to_rgb, Scheme};
use crate::fixed::{
    floor_div, lemma_floor_div_bounds, round_div, round_div_spec, SCALE,
};
use crate::rng::{draw_below, rng_from_seed};
use vstd::prelude::*;

verus! {

/// Component magnitude bound preserved by every fern transform: 20 real
/// units, far outside the fern's actual extent.
pub const FERN_LIMIT: i64 = 2000000;

/// One point of the fern's plane, in fixed-point units.
#[derive(Clone, Copy, Debug, PartialEq, Eq, Structural)]
pub struct FernPoint {
    pub x: i64,
    pub y: i64,
}

impl FernPoint {
    /// The fixed-point components as unbounded integers.
    pub open spec fn model(self) -> (int, int) {
        (self.x as int, self.y as int)
    }
}

/// The four affine transforms of the classic fern.
#[derive(Clone, Copy, Debug, PartialEq, Eq, Structural)]
pub enum FernTransform {
    Stem,
    LeftLeaflet,
    RightLeaflet,
    MainFrond,
}

/// Transform selected by a uniform draw from `[0, SCALE)`: the stem for
/// the lowest 1%, the two leaflet transforms for 7% each, and the main
/// frond for the remaining 85%.
pub open spec fn select_spec(r: int) -> FernTransform {
    if r < 1000 {
        FernTransform::Stem
    } else if r < 8000 {
        FernTransform::LeftLeaflet
    } else if r < 15000 {
        FernTransform::RightLeaflet
    } else {
        FernTransform::MainFrond
    }
}

/// Select the transform of a draw.
pub fn select_transform(r: u64) -> (t: FernTransform)
    requires
        r < SCALE as u64,
    ensures
        t == select_spec(r as int),
{
    if r < 1000 {
        FernTransform::Stem
    } else if r < 8000 {
        FernTransform::LeftLeaflet
    } else if r < 15000 {
        FernTransform::RightLeaflet
    } else {
        FernTransform::MainFrond
    }
}

/// Sanity check on the draw thresholds: the main frond receives exactly
/// the draws in `[15000, SCALE)`, 85% of the draw space, and the other
/// three transforms split the remaining 15%.
pub proof fn lemma_main_frond_mass()
    ensures
        forall|r: int|
            0 <= r < SCALE ==> (#[trigger] select_spec(r) == FernTransform::MainFrond <==> 15000
                <= r),
{
}

/// The affine transforms of the classic fern, with coefficients in
/// hundredths and translations in fixed-point units.
pub open spec fn transform_spec(t: FernTransform, p: (int, int)) -> (int, int) {
    match t {
        FernTransform::Stem => (0, (16 * p.1) / 100),
        FernTransform::LeftLeaflet => (
            (20 * p.0 - 26 * p.1) / 100,
            (23 * p.0 + 22 * p.1) / 100 + 160000,
        ),
        FernTransform::RightLeaflet => (
            (-15 * p.0 + 28 * p.1) / 100,
            (26 * p.0 + 26 * p.1) / 100 + 44000,
        ),
        FernTransform::MainFrond => (
            (85 * p.0 + 4 * p.1) / 100,
            (-4 * p.0 + 85 * p.1) / 100 + 160000,
        ),
    }
}

/// One step of the IFS: the transform selected by draw `r` applied to
/// `p`.
#[verifier::opaque]
pub open spec fn fern_step_spec(p: (int, int), r: int) -> (int, int) {
    transform_spec(select_spec(r), p)
}

/// Predecessor of point `i` of a fern sequence: the origin for the
/// first point, the previous point otherwise.
pub open spec fn fern_prev(points: Seq<FernPoint>, i: int) -> (int, int) {
    if i == 0 {
        (0, 0)
    } else {
        points[i - 1].model()
    }
}

/// Point `i` of a fern sequence is the image of its predecessor under
/// the transform of some in-range draw.
pub open spec fn fern_linked(points: Seq<FernPoint>, i: int) -> bool {
    exists|r: int|
        0 <= r < SCALE && #[trigger] fern_step_spec(fern_prev(points, i), r) == points[i].model()
}

/// Both components of `p` have magnitude at most `FERN_LIMIT`.
pub open spec fn fern_bounded(p: (int, int)) -> bool {
    -FERN_LIMIT <= p.0 <= FERN_LIMIT && -FERN_LIMIT <= p.1 <= FERN_LIMIT
}

/// Apply one step of the IFS.
pub fn fern_step(p: FernPoint, r: u64) -> (q: FernPoint)
    requires
        r < SCALE as u64,
        fern_bounded(p.model()),
    ensures
        q.model() == fern_step_spec(p.model(), r as int),
        fern_bounded(q.model()),
{
    proof {
        reveal(fern_step_spec);
        let m = 89 * (FERN_LIMIT as int);
        lemma_floor_div_bounds(16 * (p.y as int), m, 100);
        lemma_floor_div_bounds(20 * (p.x as int) - 26 * (p.y as int), m, 100);
        lemma_floor_div_bounds(23 * (p.x as int) + 22 * (p.y as int), m, 100);
        lemma_floor_div_bounds(-15 * (p.x as int) + 28 * (p.y as int), m, 100);
        lemma_floor_div_bounds(26 * (p.x as int) + 26 * (p.y as int), m, 100);
        lemma_floor_div_bounds(85 * (p.x as int) + 4 * (p.y as int), m, 100);
        lemma_floor_div_bounds(-4 * (p.x as int) + 85 * (p.y as int), m, 100);
    }
    match select_transform(r) {
        FernTransform::Stem => FernPoint { x: 0, y: floor_div(16 * p.y, 100) },
        FernTransform::LeftLeaflet => FernPoint {
            x: floor_div(20 * p.x - 26 * p.y, 100),
            y: floor_div(23 * p.x + 22 * p.y, 100) + 160000,
        },
        FernTransform::RightLeaflet => FernPoint {
            x: floor_div(-15 * p.x + 28 * p.y, 100),
            y: floor_div(26 * p.x + 26 * p.y, 100) + 44000,
        },
        FernTransform::MainFrond => FernPoint {
            x: floor_div(85 * p.x + 4 * p.y, 100),
            y: floor_div(-4 * p.x + 85 * p.y, 100) + 160000,
        },
    }
}

/// The point sequence of `iterations` steps of the IFS from the origin,
/// under draws from a generator seeded with `seed`.  Every point is the
/// image of its predecessor (the origin for the first) under the
/// transform of some draw; which transform is up to the generator.
#[verifier::rlimit(100)]
pub fn generate(iterations: u32, seed: u64) -> (points: Vec<FernPoint>)
    ensures
        points@.len() == iterations,
        forall|i: int| 0 <= i < points@.len() ==> fern_bounded(#[trigger] points@[i].model()),
        forall|i: int| 0 <= i < points@.len() ==> #[trigger] fern_linked(points@, i),
{
    let mut rng = rng_from_seed(seed);
    let mut p = FernPoint { x: 0, y: 0 };
    let mut points: Vec<FernPoint> = Vec::new();
    let mut k: u32 = 0;
    while k < iterations
        invariant
            points@.len() == k <= iterations,
            fern_bounded(p.model()),
            k == 0 ==> p.model() == (0int, 0int),
            k > 0 ==> p == points@[k - 1],
            forall|i: int| 0 <= i < k ==> fern_bounded(#[trigger] points@[i].model()),
            forall|i: int| 0 <= i < k ==> #[trigger] fern_linked(points@, i),
        decreases iterations - k,
    {
        let r = draw_below(&mut rng, SCALE as u64);
        let prev = p;
        p = fern_step(p, r);
        let ghost old_points = points@;
        points.push(p);
        proof {
            assert(prev.model() == fern_prev(points@, k as int));
            assert(fern_step_spec(fern_prev(points@, k as int), r as int) == points@[
                k as int].model());
            assert forall|i: int| 0 <= i < k + 1 implies #[trigger] fern_linked(points@, i) by {
                if i < k {
                    assert(fern_linked(old_points, i));
                    assert(points@[i] == old_points[i]);
                    assert(fern_prev(points@, i) == fern_prev(old_points, i));
                    let rr = choose|rr: int|
                        0 <= rr < SCALE && #[trigger] fern_step_spec(fern_prev(old_points, i), rr)
                            == old_points[i].model();
                    assert(fern_step_spec(fern_prev(points@, i), rr) == points@[i].model());
                } else {
                    assert(fern_step_spec(fern_prev(points@, i), r as int) == points@[
                        i].model());
                }
            }
        }
        k = k + 1;
    }
    points
}

/// Raster pixel of a fern point on a `w x h` raster: the point scaled
/// by `w/11` around the horizontal center and by `h/11` up from the
/// bottom edge, rounded to the nearest pixel; points outside the raster
/// are discarded.
pub open spec fn fern_pixel_spec(p: (int, int), w: int, h: int) -> Option<(int, int)> {
    let px = round_div_spec(w * (11 * SCALE + 2 * p.0), 22 * SCALE);
    let py = round_div_spec(h * (11 * SCALE - p.1), 11 * SCALE);
    if 0 <= px < w && 0 <= py < h {
        Some((px, py))
    } else {
        None
    }
}

/// Map a fern point to its raster pixel, or `None` if it falls outside
/// the raster.
pub fn to_pixel(p: FernPoint, dims: (u32, u32)) -> (r: Option<(u32, u32)>)
    requires
        fern_bounded(p.model()),
    ensures
        r is Some <==> fern_pixel_spec(p.model(), dims.0 as int, dims.1 as int) is Some,
        r matches Some(q) ==> fern_pixel_spec(p.model(), dims.0 as int, dims.1 as int) == Some(
            ((q.0 as int, q.1 as int)),
        ),
{
    let w = dims.0 as i64;
    let h = dims.1 as i64;
    proof {
        assert(-0x1000000000000000 < (w as int) * (11 * (SCALE as int) + 2 * (p.x as int))
            < 0x1000000000000000) by (nonlinear_arith)
            requires
                0 <= w as int <= 0x100000000,
                -(FERN_LIMIT as int) <= p.x as int <= FERN_LIMIT as int,
        ;
        assert(-0x1000000000000000 < (h as int) * (11 * (SCALE as int) - (p.y as int))
            < 0x1000000000000000) by (nonlinear_arith)
            requires
                0 <= h as int <= 0x100000000,
                -(FERN_LIMIT as int) <= p.y as int <= FERN_LIMIT as int,
        ;
    }
    let px = round_div(w * (11 * SCALE + 2 * p.x), 22 * SCALE);
    let py = round_div(h * (11 * SCALE - p.y), 11 * SCALE);
    if 0 <= px && px < w && 0 <= py && py < h {
        Some((px as u32, py as u32))
    } else {
        None
    }
}

/// Some point of the sequence lands on pixel `(x, y)`.
pub open spec fn fern_hits(points: Seq<FernPoint>, w: int, h: int, x: int, y: int) -> bool {
    exists|i: int|
        0 <= i < points.len() && #[trigger] fern_pixel_spec(points[i].model(), w, h) == Some(
            (x, y),
        )
}

/// Plot every point that lands on the raster in the color `rgb`; all
/// other pixels keep their value.
pub fn plot_fern(buf: &mut OutputBuffer, points: &Vec<FernPoint>, rgb: [u8; 3])
    requires
        old(buf).wf(),
        forall|i: int| 0 <= i < points@.len() ==> fern_bounded(#[trigger] points@[i].model()),
    ensures
        final(buf).wf(),
        final(buf).width == old(buf).width,
        final(buf).height == old(buf).height,
        forall|x: int, y: int|
            0 <= x < old(buf).width && 0 <= y < old(buf).height && fern_hits(
                points@,
                old(buf).width as int,
                old(buf).height as int,
                x,
                y,
            ) ==> final(buf).pixel_is(x, y, (rgb@[0], rgb@[1], rgb@[2], 255)),
        forall|x: int, y: int, ch: int|
            0 <= x < old(buf).width && 0 <= y < old(buf).height && 0 <= ch < 4 && !fern_hits(
                points@,
                old(buf).width as int,
                old(buf).height as int,
                x,
                y,
            ) ==> final(buf).chan(x, y, ch) == old(buf).chan(x, y, ch),
{
    let w = buf.width;
    let h = buf.height;
    let color: Rgba = (rgb[0], rgb[1], rgb[2], 255);
    let mut k: usize = 0;
    while k < points.len()
        invariant
            buf.wf(),
            w == buf.width,
            h == buf.height,
            k <= points@.len(),
            forall|i: int| 0 <= i < points@.len() ==> fern_bounded(
                #[trigger] points@[i].model(),
            ),
            color == (rgb@[0], rgb@[1], rgb@[2], 255u8),
            forall|x: int, y: int|
                0 <= x < w && 0 <= y < h && fern_hits(
                    points@.take(k as int),
                    w as int,
                    h as int,
                    x,
                    y,
                ) ==> buf.pixel_is(x, y, (rgb@[0], rgb@[1], rgb@[2], 255)),
            forall|x: int, y: int, ch: int|
                0 <= x < w && 0 <= y < h && 0 <= ch < 4 && !fern_hits(
                    points@.take(k as int),
                    w as int,
                    h as int,
                    x,
                    y,
                ) ==> buf.chan(x, y, ch) == old(buf).chan(x, y, ch),
        decreases points@.len() - k,
    {
        let p = points[k];
        match to_pixel(p, (w, h)) {
            Some(q) => {
                buf.set_pixel(q.0, q.1, color);
            },
            None => {},
        }
        proof {
            lemma_fern_hits_extend(points@, w as int, h as int, k as int);
        }
        k = k + 1;
    }
    proof {
        assert(points@.take(points@.len() as int) =~= points@);
    }
}

/// Extending the plotted prefix by one point adds exactly that point's
/// pixel (if any) to the set of hit pixels.
proof fn lemma_fern_hits_extend(points: Seq<FernPoint>, w: int, h: int, k: int)
    requires
        0 <= k < points.len(),
    ensures
        forall|x: int, y: int|
            #[trigger] fern_hits(points.take(k + 1), w, h, x, y) <==> (fern_hits(
                points.take(k),
                w,
                h,
                x,
                y,
            ) || fern_pixel_spec(points[k].model(), w, h) == Some((x, y))),
{
    assert forall|x: int, y: int| #[trigger]
        fern_hits(points.take(k + 1), w, h, x, y) implies (fern_hits(points.take(k), w, h, x, y)
        || fern_pixel_spec(points[k].model(), w, h) == Some((x, y))) by {
        let i = choose|i: int|
            0 <= i < points.take(k + 1).len() && #[trigger] fern_pixel_spec(
                points.take(k + 1)[i].model(),
                w,
                h,
            ) == Some((x, y));
        if i < k {
            assert(fern_pixel_spec(points.take(k)[i].model(), w, h) == Some((x, y)));
        }
    }
    assert forall|x: int, y: int|
        fern_hits(points.take(k), w, h, x, y) || fern_pixel_spec(points[k].model(), w, h)
        == Some((x, y)) implies #[trigger] fern_hits(points.take(k + 1), w, h, x, y) by {
        if fern_hits(points.take(k), w, h, x, y) {
            let i = choose|i: int|
                0 <= i < points.take(k).len() && #[trigger] fern_pixel_spec(
                    points.take(k)[i].model(),
                    w,
                    h,
                ) == Some((x, y));
            assert(fern_pixel_spec(points.take(k + 1)[i].model(), w, h) == Some((x, y)));
        } else {
            assert(fern_pixel_spec(points.take(k + 1)[k].model(), w, h) == Some((x, y)));
        }
    }
}

/// Render a complete Barnsley fern image: the scheme's background with
/// the fern's points plotted over it in the scheme's color.  Which
/// pixels the fern hits depends on the draws, so each pixel holds either
/// the fern color or what the background pass left.
pub fn render_barnsley(
    dims: (u32, u32),
    scheme: &Scheme,
    iterations: u32,
    seed: u64,
) -> (buf: OutputBuffer)
    requires
        4 * (dims.0 as int) * (dims.1 as int) <= usize::MAX as int,
    ensures
        buf.wf(),
        buf.width == dims.0,
        buf.height == dims.1,
        forall|x: int, y: int|
            0 <= x < dims.0 && 0 <= y < dims.1 ==> buf.pixel_is(
                x,
                y,
                (
                    color_rgb_spec(scheme.color).0,
                    color_rgb_spec(scheme.color).1,
                    color_rgb_spec(scheme.color).2,
                    255,
                ),
            ) || buf.pixel_is(x, y, base_pixel_spec(*scheme, x, y)),
{
    let mut buf = OutputBuffer::new(dims.0, dims.1);
    apply_background(&mut buf, scheme);
    proof {
        assert forall|x: int, y: int| 0 <= x < dims.0 && 0 <= y < dims.1 implies buf.pixel_is(
            x,
            y,
            base_pixel_spec(*scheme, x, y),
        ) by {
            buf.lemma_byte_at_range(x, y, 0);
            buf.lemma_byte_at_range(x, y, 1);
            buf.lemma_byte_at_range(x, y, 2);
            buf.lemma_byte_at_range(x, y, 3);
        }
    }
    let color = color_to_rgb(scheme.color);
    let points = generate(iterations, seed);
    plot_fern(&mut buf, &points, color);
    buf
}

} // verus!
