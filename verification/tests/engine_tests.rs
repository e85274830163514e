use fractals::buffer::OutputBuffer;
use fractals::color::{apply_background, Color, Scheme};
use fractals::complex::Complex;
use fractals::coords::PixelSpace;
use fractals::escape::{
    julia_escape, julia_preset, mandelbrot_escape, multi_julia_escape, multi_julia_params,
    pixel_set_multi, pixel_setter,
};
use fractals::fixed::SCALE;
use fractals::render::{render, render_image, FractalKind};

fn unit_viewport(w: u32, h: u32) -> PixelSpace {
    PixelSpace {
        pixel_dims: (w, h),
        complex_corners: (
            Complex { re: -SCALE, im: SCALE },
            Complex { re: SCALE, im: -SCALE },
        ),
    }
}

#[test]
fn test_mandelbrot_origin_never_escapes() {
    let origin = Complex { re: 0, im: 0 };
    assert_eq!(mandelbrot_escape(origin, 255), 255);
    assert_eq!(mandelbrot_escape(origin, 110), 110);
    assert_eq!(mandelbrot_escape(origin, 0), 0);
}

#[test]
fn test_mandelbrot_far_point_escapes_immediately() {
    let c = Complex { re: 2 * SCALE, im: 2 * SCALE };
    assert_eq!(mandelbrot_escape(c, 255), 1);
    assert_eq!(mandelbrot_escape(c, 1), 1);
}

#[test]
fn test_julia_escaped_seed_counts_zero() {
    let far = Complex { re: 3 * SCALE, im: 0 };
    let c = julia_preset(3);
    assert_eq!(julia_escape(far, c, 255), 0);
}

#[test]
fn test_julia_preset_three_deterministic() {
    let seed = Complex { re: 0, im: 0 };
    let c = julia_preset(3);
    let first = julia_escape(seed, c, 255);
    let second = julia_escape(seed, c, 255);
    assert_eq!(first, second);
    assert_eq!(first, 26);
}

#[test]
fn test_julia_preset_fallback() {
    assert_eq!(julia_preset(11), julia_preset(3));
    assert_eq!(julia_preset(0), Complex { re: -40000, im: 60000 });
}

#[test]
fn test_multi_julia_params_table() {
    assert_eq!(multi_julia_params(2), (2, 27900));
    assert_eq!(multi_julia_params(7), (7, 62600));
    assert_eq!(multi_julia_params(9), (2, 27900));
}

#[test]
fn test_multi_julia_power_two_matches_quadratic() {
    let c = Complex { re: 27900, im: 0 };
    let seeds = [
        Complex { re: 0, im: 0 },
        Complex { re: SCALE / 2, im: -SCALE / 3 },
        Complex { re: -SCALE, im: SCALE },
        Complex { re: 3 * SCALE, im: 0 },
    ];
    for z0 in seeds {
        assert_eq!(
            multi_julia_escape(z0, 2, 27900, 255),
            julia_escape(z0, c, 255)
        );
    }
}

#[test]
fn test_multi_julia_real_axis_escapes() {
    let n = multi_julia_escape(Complex { re: 0, im: 0 }, 2, 27900, 255);
    assert!(n > 0 && n < 255, "offset 0.279 drives the origin out: {}", n);
    let again = multi_julia_escape(Complex { re: 0, im: 0 }, 2, 27900, 255);
    assert_eq!(n, again);
}

#[test]
fn test_pixel_setter_counts_up_to_255() {
    let far = Complex { re: 3 * SCALE, im: 0 };
    assert_eq!(pixel_setter(far, 7, 3), 7);
    assert_eq!(pixel_setter(Complex { re: 0, im: 0 }, 255, 3), 255);
    assert_eq!(pixel_setter(Complex { re: 0, im: 0 }, 300, 3), 300);
}

#[test]
fn test_pixel_set_multi_escaping_corner() {
    assert_eq!(pixel_set_multi((100, 100), (0, 0), 110), 109);
}

#[test]
fn test_pixel_set_multi_floor_values() {
    assert_eq!(pixel_set_multi((100, 100), (50, 50), 0), 0);
    assert_eq!(pixel_set_multi((100, 100), (50, 50), 1), 1);
    let a = pixel_set_multi((100, 100), (50, 50), 110);
    let b = pixel_set_multi((100, 100), (50, 50), 110);
    assert_eq!(a, b);
    assert!(a >= 1 && a <= 110);
}

#[test]
fn test_render_banding_is_idempotent() {
    let ps = unit_viewport(16, 16);
    let kind = FractalKind::Mandelbrot;
    let one = render(&ps, &kind, 64, 1);
    for threads in 2..17 {
        let many = render(&ps, &kind, 64, threads);
        assert_eq!(one, many, "band count {} changed the output", threads);
    }
}

#[test]
fn test_render_deterministic() {
    let ps = unit_viewport(10, 10);
    let kind = FractalKind::Mandelbrot;
    let first = render(&ps, &kind, 255, 1);
    let second = render(&ps, &kind, 255, 1);
    assert_eq!(first, second);
    assert_eq!(first.len(), 100);
}

#[test]
fn test_render_center_pixel_full_count() {
    let ps = unit_viewport(10, 10);
    let counts = render(&ps, &FractalKind::Mandelbrot, 255, 1);
    // Pixel (5, 5) maps to the origin, which never escapes.
    assert_eq!(counts[5 * 10 + 5], 255);
}

#[test]
fn test_render_image_solid_background_and_color() {
    let ps = unit_viewport(10, 10);
    let scheme = Scheme::default();
    let img = render_image(&ps, &FractalKind::Mandelbrot, 255, &scheme, 1);
    assert_eq!(img.width, 10);
    assert_eq!(img.height, 10);
    // Solid black background; the green channel carries the count.
    let center = img.get_pixel(5, 5);
    assert_eq!(center, (0, 255, 0, 255));
    let img2 = render_image(&ps, &FractalKind::Mandelbrot, 255, &scheme, 4);
    assert_eq!(img.data, img2.data);
}

#[test]
fn test_apply_background_fancy_blend() {
    let mut buf = OutputBuffer::new(20, 20);
    let mut scheme = Scheme::default();
    scheme.fancy_background = true;
    scheme.bg_color = Color::Red;
    scheme.bg_color_2 = Color::Blue;
    apply_background(&mut buf, &scheme);
    // Shade is three tenths of the coordinate; alpha is 30 off the fern.
    assert_eq!(buf.get_pixel(10, 5), (3, 0, 1, 30));
}

#[test]
fn test_apply_background_unsupported_blend_leaves_pixels() {
    let mut buf = OutputBuffer::new(8, 8);
    let mut scheme = Scheme::default();
    scheme.fancy_background = true;
    scheme.bg_color = Color::Red;
    scheme.bg_color_2 = Color::Yellow;
    apply_background(&mut buf, &scheme);
    assert_eq!(buf.get_pixel(4, 4), (0, 0, 0, 0));
}

#[test]
fn test_output_buffer_set_get() {
    let mut buf = OutputBuffer::new(3, 2);
    assert_eq!(buf.get_pixel(2, 1), (0, 0, 0, 0));
    buf.set_pixel(2, 1, (9, 8, 7, 6));
    assert_eq!(buf.get_pixel(2, 1), (9, 8, 7, 6));
    assert_eq!(buf.get_pixel(1, 1), (0, 0, 0, 0));
}
