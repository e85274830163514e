//! Linear mapping between raster pixels and complex-plane coordinates.
//!
//! A `PixelSpace` pairs a raster extent with the viewport it covers: the
//! complex numbers at the upper-left and lower-right corners.  Each pixel
//! axis is interpolated independently; the viewport can be cut into
//! horizontal bands that are themselves pixel spaces.

use crate::complex::{in_box, Complex, COORD_LIMIT};
use crate::fixed::floor_div;
use vstd::arithmetic::div_mod::{
    lemma_div_multiples_vanish, lemma_fundamental_div_mod, lemma_mod_bound,
};
use vstd::prelude::*;

verus! {

/// A raster extent together with the complex-plane viewport it maps onto:
/// `complex_corners.0` is the upper-left corner, `complex_corners.1` the
/// lower-right one.
#[derive(Clone, Copy, Debug)]
pub struct PixelSpace {
    pub pixel_dims: (u32, u32),
    pub complex_corners: (Complex, Complex),
}

impl PixelSpace {
    /// Both raster dimensions are positive and both corners lie within
    /// the accepted coordinate box.
    pub open spec fn wf(self) -> bool {
        &&& 0 < self.pixel_dims.0
        &&& 0 < self.pixel_dims.1
        &&& in_box(self.complex_corners.0.model(), COORD_LIMIT as int)
        &&& in_box(self.complex_corners.1.model(), COORD_LIMIT as int)
    }

    /// Real part of the point of pixel column `x`: the interpolation
    /// `corners.1.re * (x/w) + corners.0.re * (1 - x/w)` carried out as
    /// one floor division.
    pub open spec fn point_re(self, x: int) -> int {
        (self.complex_corners.1.re * x + self.complex_corners.0.re * (self.pixel_dims.0 - x))
            / (self.pixel_dims.0 as int)
    }

    /// Imaginary part of the point of pixel row `y`.
    pub open spec fn point_im(self, y: int) -> int {
        (self.complex_corners.1.im * y + self.complex_corners.0.im * (self.pixel_dims.1 - y))
            / (self.pixel_dims.1 as int)
    }

    /// The complex-plane point of pixel `(x, y)`.
    pub open spec fn point_at(self, x: int, y: int) -> (int, int) {
        (self.point_re(x), self.point_im(y))
    }

    /// Map a pixel to its complex-plane point.  The pixel may lie on the
    /// inclusive far edge of the raster.
    pub fn pixel_to_point(&self, pixel: (u32, u32)) -> (p: Complex)
        requires
            self.wf(),
            pixel.0 <= self.pixel_dims.0,
            pixel.1 <= self.pixel_dims.1,
        ensures
            p.model() == self.point_at(pixel.0 as int, pixel.1 as int),
            in_box(p.model(), COORD_LIMIT as int),
    {
        let w = self.pixel_dims.0 as i64;
        let h = self.pixel_dims.1 as i64;
        let x = pixel.0 as i64;
        let y = pixel.1 as i64;
        let c0 = self.complex_corners.0;
        let c1 = self.complex_corners.1;
        proof {
            lemma_axis_interp_bounds(c0.re as int, c1.re as int, x as int, w as int);
            lemma_axis_interp_bounds(c0.im as int, c1.im as int, y as int, h as int);
        }
        let re = floor_div(c1.re * x + c0.re * (w - x), w);
        let im = floor_div(c1.im * y + c0.im * (h - y), h);
        Complex { re, im }
    }

    /// The sub-viewport of pixel rows `[h0, h1)`: a pixel space of the
    /// full width and `h1 - h0` rows whose corners are the points of
    /// pixels `(0, h0)` and `(width, h1)`.
    pub fn band(&self, h0: u32, h1: u32) -> (b: PixelSpace)
        requires
            self.wf(),
            h0 <= h1 <= self.pixel_dims.1,
        ensures
            b.pixel_dims.0 == self.pixel_dims.0,
            b.pixel_dims.1 == h1 - h0,
            b.complex_corners.0.model() == self.point_at(0, h0 as int),
            b.complex_corners.1.model() == self.point_at(
                self.pixel_dims.0 as int,
                h1 as int,
            ),
            h0 < h1 ==> b.wf(),
    {
        let upper_left = self.pixel_to_point((0, h0));
        let lower_right = self.pixel_to_point((self.pixel_dims.0, h1));
        PixelSpace {
            pixel_dims: (self.pixel_dims.0, h1 - h0),
            complex_corners: (upper_left, lower_right),
        }
    }
}

/// Interpolating between `a` and `b` with weights `d - x` and `x` out of
/// `d` keeps the result within the accepted coordinate box, and the
/// numerator within safe integer range.
proof fn lemma_axis_interp_bounds(a: int, b: int, x: int, d: int)
    requires
        0 < d <= 0x100000000,
        0 <= x <= d,
        -(COORD_LIMIT as int) <= a <= COORD_LIMIT as int,
        -(COORD_LIMIT as int) <= b <= COORD_LIMIT as int,
    ensures
        -((COORD_LIMIT as int) * d) <= b * x <= (COORD_LIMIT as int) * d,
        -((COORD_LIMIT as int) * d) <= a * (d - x) <= (COORD_LIMIT as int) * d,
        -((COORD_LIMIT as int) * d) <= b * x + a * (d - x) <= (COORD_LIMIT as int) * d,
        -(COORD_LIMIT as int) <= (b * x + a * (d - x)) / d <= COORD_LIMIT as int,
{
    let l = COORD_LIMIT as int;
    assert(-(l * d) <= b * x <= l * d && -(l * d) <= a * (d - x) <= l * d
        && -(l * d) <= b * x + a * (d - x) <= l * d) by (nonlinear_arith)
        requires
            0 < d,
            0 <= x <= d,
            -l <= a <= l,
            -l <= b <= l,
    ;
    crate::fixed::lemma_div_in_range(b * x + a * (d - x), l, d);
}

/// The mapping is affine up to one floor rounding per axis: for every
/// pixel inside the raster (far edges included), the mapped point scaled
/// back by the raster extent brackets the exact affine interpolation
/// `corners.1 * (x/w) + corners.0 * (1 - x/w)` of the viewport corners.
pub proof fn lemma_pixel_to_point_affine(ps: PixelSpace, x: int, y: int)
    requires
        ps.wf(),
        0 <= x <= ps.pixel_dims.0,
        0 <= y <= ps.pixel_dims.1,
    ensures
        ({
            let w = ps.pixel_dims.0 as int;
            let re_sum = ps.complex_corners.1.re * x + ps.complex_corners.0.re * (w - x);
            w * ps.point_re(x) <= re_sum < w * ps.point_re(x) + w
        }),
        ({
            let h = ps.pixel_dims.1 as int;
            let im_sum = ps.complex_corners.1.im * y + ps.complex_corners.0.im * (h - y);
            h * ps.point_im(y) <= im_sum < h * ps.point_im(y) + h
        }),
{
    let w = ps.pixel_dims.0 as int;
    let h = ps.pixel_dims.1 as int;
    let re_sum = ps.complex_corners.1.re * x + ps.complex_corners.0.re * (w - x);
    let im_sum = ps.complex_corners.1.im * y + ps.complex_corners.0.im * (h - y);
    lemma_fundamental_div_mod(re_sum, w);
    lemma_mod_bound(re_sum, w);
    lemma_fundamental_div_mod(im_sum, h);
    lemma_mod_bound(im_sum, h);
}

/// The corner pixels map exactly onto the viewport corners: pixel (0, 0)
/// onto the upper-left corner and pixel (width, height) onto the
/// lower-right one.
pub proof fn lemma_pixel_to_point_corners(ps: PixelSpace)
    requires
        ps.wf(),
    ensures
        ps.point_at(0, 0) == ps.complex_corners.0.model(),
        ps.point_at(ps.pixel_dims.0 as int, ps.pixel_dims.1 as int)
            == ps.complex_corners.1.model(),
{
    let w = ps.pixel_dims.0 as int;
    let h = ps.pixel_dims.1 as int;
    let c0 = ps.complex_corners.0;
    let c1 = ps.complex_corners.1;
    lemma_exact_multiple(c0.re as int, w);
    lemma_exact_multiple(c0.im as int, h);
    lemma_exact_multiple(c1.re as int, w);
    lemma_exact_multiple(c1.im as int, h);
}

/// `(a * d) / d == a` for positive `d`.
proof fn lemma_exact_multiple(a: int, d: int)
    requires
        0 < d,
    ensures
        (a * d) / d == a,
{
    lemma_div_multiples_vanish(a, d);
    assert(a * d == d * a) by (nonlinear_arith);
}

} // verus!
