use fractals::barnsley::{
    fern_step, generate, render_barnsley, select_transform, to_pixel, FernPoint, FernTransform,
};
use fractals::color::Scheme;
use fractals::fixed::SCALE;

#[test]
fn test_transform_thresholds() {
    assert_eq!(select_transform(0), FernTransform::Stem);
    assert_eq!(select_transform(999), FernTransform::Stem);
    assert_eq!(select_transform(1000), FernTransform::LeftLeaflet);
    assert_eq!(select_transform(7999), FernTransform::LeftLeaflet);
    assert_eq!(select_transform(8000), FernTransform::RightLeaflet);
    assert_eq!(select_transform(14999), FernTransform::RightLeaflet);
    assert_eq!(select_transform(15000), FernTransform::MainFrond);
    assert_eq!(select_transform(99999), FernTransform::MainFrond);
}

#[test]
fn test_main_frond_mass_is_85_percent() {
    let mut main = 0u64;
    for r in 0..(SCALE as u64) {
        if select_transform(r) == FernTransform::MainFrond {
            main += 1;
        }
    }
    assert_eq!(main, 85000);
}

#[test]
fn test_fern_step_values() {
    // The stem transform drops x and scales y by 0.16.
    let p = FernPoint { x: 150000, y: 1000000 };
    let q = fern_step(p, 500);
    assert_eq!(q, FernPoint { x: 0, y: 160000 });
    // The main frond from the origin lands at (0, 1.6).
    let o = FernPoint { x: 0, y: 0 };
    let m = fern_step(o, 50000);
    assert_eq!(m, FernPoint { x: 0, y: 160000 });
}

#[test]
fn test_generate_is_reproducible_for_a_seed() {
    let a = generate(2000, 7);
    let b = generate(2000, 7);
    assert_eq!(a.len(), 2000);
    assert_eq!(a, b);
}

#[test]
fn test_to_pixel_values() {
    // The origin maps to the bottom edge (row == height) and is dropped.
    assert_eq!(to_pixel(FernPoint { x: 0, y: 0 }, (100, 100)), None);
    // A point 5.5 units up sits in the middle of the raster.
    assert_eq!(
        to_pixel(FernPoint { x: 0, y: 55 * SCALE / 10 }, (100, 100)),
        Some((50, 50))
    );
}

#[test]
fn test_fern_has_nondegenerate_spread() {
    let points = generate(20000, 42);
    let mut pixels: Vec<(u32, u32)> = Vec::new();
    for p in &points {
        if let Some(q) = to_pixel(*p, (800, 800)) {
            if !pixels.contains(&q) {
                pixels.push(q);
            }
            if pixels.len() > 50 {
                break;
            }
        }
    }
    assert!(
        pixels.len() > 50,
        "a seeded fern run should cover many distinct pixels, found {}",
        pixels.len()
    );
}

#[test]
fn test_render_barnsley_pixels_are_background_or_fern() {
    let mut scheme = Scheme::default();
    scheme.fractal = "barnsley".to_string();
    let img = render_barnsley((50, 50), &scheme, 5000, 11);
    assert_eq!(img.width, 50);
    assert_eq!(img.height, 50);
    let fern = (0u8, 128u8, 0u8, 255u8);
    let background = (0u8, 0u8, 0u8, 255u8);
    let mut fern_pixels = 0u32;
    for y in 0..50 {
        for x in 0..50 {
            let p = img.get_pixel(x, y);
            assert!(p == fern || p == background, "unexpected pixel {:?}", p);
            if p == fern {
                fern_pixels += 1;
            }
        }
    }
    assert!(fern_pixels > 0);
}
