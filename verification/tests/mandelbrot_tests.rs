use fractals::complex::Complex;
use fractals::coords::PixelSpace;
use fractals::fixed::SCALE;

#[test]
fn test_pixel_to_point() {
    let ps = PixelSpace {
        pixel_dims: (100, 100),
        complex_corners: (
            Complex { re: -SCALE, im: SCALE },
            Complex { re: SCALE, im: -SCALE },
        ),
    };
    assert_eq!(
        ps.pixel_to_point((25, 75)),
        Complex { re: -SCALE / 2, im: -SCALE / 2 }
    )
}

#[test]
fn test_pixel_to_point_corners() {
    let ps = PixelSpace {
        pixel_dims: (640, 480),
        complex_corners: (
            Complex { re: -2 * SCALE, im: SCALE },
            Complex { re: SCALE, im: -(14 * SCALE) / 10 },
        ),
    };
    assert_eq!(ps.pixel_to_point((0, 0)), ps.complex_corners.0);
    assert_eq!(ps.pixel_to_point((640, 480)), ps.complex_corners.1);
}

#[test]
fn test_band_slices_viewport() {
    let ps = PixelSpace {
        pixel_dims: (100, 100),
        complex_corners: (
            Complex { re: -SCALE, im: SCALE },
            Complex { re: SCALE, im: -SCALE },
        ),
    };
    let b = ps.band(25, 75);
    assert_eq!(b.pixel_dims, (100, 50));
    assert_eq!(b.complex_corners.0, ps.pixel_to_point((0, 25)));
    assert_eq!(b.complex_corners.1, ps.pixel_to_point((100, 75)));
}
