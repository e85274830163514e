//! Colors, render schemes, and the per-pixel color policy.
//!
//! A `Scheme` fixes the fractal color and the background for one render.
//! The policy functions map menu input to colors, colors to RGB values,
//! and iteration results plus background pixels to final pixels.

use crate::buffer::{OutputBuffer, Rgba};
use crate::text::{lower_spec, str_eq, trim_lower, trim_spec};
use vstd::prelude::*;
use vstd::string::StringExecFns;

verus! {

/// Supported colors for fractals and backgrounds.
#[derive(Clone, Copy, Debug, PartialEq, Eq, Structural)]
pub enum Color {
    Red,
    Orange,
    Yellow,
    Blue,
    Green,
    Violet,
    Black,
    White,
}

/// Properties of the fractal being generated: its color, the background
/// style, and which post-render transform (if any) the caller asked for.
#[derive(Debug)]
pub struct Scheme {
    pub fractal: String,
    pub color: Color,
    pub fancy_background: bool,
    pub bg_color: Color,
    pub bg_color_2: Color,
    pub random: bool,
    pub do_transform: bool,
    pub transform: String,
}

impl Default for Scheme {
    /// Reasonable defaults: a green Mandelbrot set on a solid black
    /// background, no randomization, no transform.
    fn default() -> (s: Scheme)
        ensures
            s.fractal@ == "mandelbrot"@,
            s.color == Color::Green,
            !s.fancy_background,
            s.bg_color == Color::Black,
            s.bg_color_2 == Color::Red,
            !s.random,
            !s.do_transform,
            s.transform@ == Seq::<char>::empty(),
    {
        Scheme {
            fractal: String::from_str("mandelbrot"),
            color: Color::Green,
            fancy_background: false,
            bg_color: Color::Black,
            bg_color_2: Color::Red,
            random: false,
            do_transform: false,
            transform: String::new(),
        }
    }
}

/// RGB value of each color.
pub open spec fn color_rgb_spec(c: Color) -> (u8, u8, u8) {
    match c {
        Color::Red => (255, 0, 0),
        Color::Orange => (255, 165, 0),
        Color::Yellow => (255, 255, 0),
        Color::Blue => (0, 0, 255),
        Color::Green => (0, 128, 0),
        Color::Violet => (238, 130, 238),
        Color::Black => (0, 0, 0),
        Color::White => (255, 255, 255),
    }
}

/// Convert a color into its RGB data values.
pub fn color_to_rgb(color: Color) -> (r: [u8; 3])
    ensures
        r@.len() == 3,
        r@[0] == color_rgb_spec(color).0,
        r@[1] == color_rgb_spec(color).1,
        r@[2] == color_rgb_spec(color).2,
{
    match color {
        Color::Red => [255, 0, 0],
        Color::Orange => [255, 165, 0],
        Color::Yellow => [255, 255, 0],
        Color::Blue => [0, 0, 255],
        Color::Green => [0, 128, 0],
        Color::Violet => [238, 130, 238],
        Color::Black => [0, 0, 0],
        Color::White => [255, 255, 255],
    }
}

/// The color a name denotes; unknown names fall back to black.
pub open spec fn str_to_color_spec(s: Seq<char>) -> Color {
    if s == "red"@ {
        Color::Red
    } else if s == "orange"@ {
        Color::Orange
    } else if s == "yellow"@ {
        Color::Yellow
    } else if s == "blue"@ {
        Color::Blue
    } else if s == "green"@ {
        Color::Green
    } else if s == "violet"@ {
        Color::Violet
    } else if s == "black"@ {
        Color::Black
    } else if s == "white"@ {
        Color::White
    } else {
        Color::Black
    }
}

/// Convert a color name to a color; invalid names default to black.
pub fn str_to_color(color: &str) -> (c: Color)
    ensures
        c == str_to_color_spec(color@),
{
    if str_eq(color, "red") {
        Color::Red
    } else if str_eq(color, "orange") {
        Color::Orange
    } else if str_eq(color, "yellow") {
        Color::Yellow
    } else if str_eq(color, "blue") {
        Color::Blue
    } else if str_eq(color, "green") {
        Color::Green
    } else if str_eq(color, "violet") {
        Color::Violet
    } else if str_eq(color, "black") {
        Color::Black
    } else if str_eq(color, "white") {
        Color::White
    } else {
        Color::Black
    }
}

/// The color name a menu choice denotes: numeric choices map through the
/// extensive color list (`scheme_type` true) or the short RGB list
/// (`scheme_type` false); anything else is passed through trimmed and
/// lowercased.
pub open spec fn color_determine_spec(input: Seq<char>, scheme_type: bool) -> Seq<char> {
    let t = lower_spec(trim_spec(input));
    if t == "1"@ {
        "red"@
    } else if t == "2"@ {
        if scheme_type {
            "orange"@
        } else {
            "green"@
        }
    } else if t == "3"@ {
        if scheme_type {
            "yellow"@
        } else {
            "blue"@
        }
    } else if t == "4"@ {
        if scheme_type {
            "green"@
        } else {
            "white"@
        }
    } else if t == "5"@ {
        "blue"@
    } else if t == "6"@ {
        "violet"@
    } else if t == "7"@ {
        "white"@
    } else if t == "8"@ {
        "black"@
    } else {
        t
    }
}

/// Resolve a menu choice to a color name.
pub fn color_determine(input: String, scheme_type: bool) -> (r: String)
    ensures
        r@ == color_determine_spec(input@, scheme_type),
{
    let t = trim_lower(input.as_str());
    if str_eq(t.as_str(), "1") {
        String::from_str("red")
    } else if str_eq(t.as_str(), "2") {
        if scheme_type {
            String::from_str("orange")
        } else {
            String::from_str("green")
        }
    } else if str_eq(t.as_str(), "3") {
        if scheme_type {
            String::from_str("yellow")
        } else {
            String::from_str("blue")
        }
    } else if str_eq(t.as_str(), "4") {
        if scheme_type {
            String::from_str("green")
        } else {
            String::from_str("white")
        }
    } else if str_eq(t.as_str(), "5") {
        String::from_str("blue")
    } else if str_eq(t.as_str(), "6") {
        String::from_str("violet")
    } else if str_eq(t.as_str(), "7") {
        String::from_str("white")
    } else if str_eq(t.as_str(), "8") {
        String::from_str("black")
    } else {
        t
    }
}

/// A menu choice accepted by the color menus: the numerals 1 through 8
/// on the extensive menu, 1 through 4 on the RGB menu; anything else
/// falls back to choice 1.
pub open spec fn color_option_spec(input: Seq<char>, extensive: bool) -> Seq<char> {
    let t = lower_spec(trim_spec(input));
    if t == "1"@ || t == "2"@ || t == "3"@ || t == "4"@ || (extensive && (t == "5"@ || t
        == "6"@ || t == "7"@ || t == "8"@)) {
        input
    } else {
        "1"@
    }
}

/// Validate a color-menu choice, falling back to choice 1; a valid
/// choice is passed through unchanged for `color_determine`.
pub fn color_option_filter(input: &str, extensive: bool) -> (r: String)
    ensures
        r@ == color_option_spec(input@, extensive),
{
    let t = trim_lower(input);
    let numeric = str_eq(t.as_str(), "1") || str_eq(t.as_str(), "2") || str_eq(t.as_str(), "3")
        || str_eq(t.as_str(), "4") || (extensive && (str_eq(t.as_str(), "5") || str_eq(
        t.as_str(),
        "6",
    ) || str_eq(t.as_str(), "7") || str_eq(t.as_str(), "8")));
    if numeric {
        String::from_str(input)
    } else {
        String::from_str("1")
    }
}

/// The transform a menu choice denotes; unknown choices fall back to
/// contrast.
pub open spec fn transform_determine_spec(input: Seq<char>) -> Seq<char> {
    let t = lower_spec(trim_spec(input));
    if t == "1"@ || t == "brighten"@ {
        "brighten"@
    } else if t == "2"@ || t == "contrast"@ {
        "contrast"@
    } else if t == "3"@ || t == "huerotate"@ {
        "huerotate"@
    } else if t == "4"@ || t == "invert"@ {
        "invert"@
    } else if t == "5"@ || t == "rotate90"@ {
        "rotate90"@
    } else if t == "6"@ || t == "rotate180"@ {
        "rotate180"@
    } else if t == "7"@ || t == "rotate270"@ {
        "rotate270"@
    } else if t == "8"@ || t == "blur"@ {
        "blur"@
    } else if t == "9"@ || t == "smooth filter"@ {
        "smooth filter"@
    } else if t == "10"@ || t == "sharpen filter"@ {
        "sharpen filter"@
    } else if t == "11"@ || t == "raised filter"@ {
        "raised filter"@
    } else {
        "contrast"@
    }
}

/// Resolve a transform-menu choice to a transform name.
pub fn transform_determine(input: &str) -> (r: String)
    ensures
        r@ == transform_determine_spec(input@),
{
    let t = trim_lower(input);
    if str_eq(t.as_str(), "1") || str_eq(t.as_str(), "brighten") {
        String::from_str("brighten")
    } else if str_eq(t.as_str(), "2") || str_eq(t.as_str(), "contrast") {
        String::from_str("contrast")
    } else if str_eq(t.as_str(), "3") || str_eq(t.as_str(), "huerotate") {
        String::from_str("huerotate")
    } else if str_eq(t.as_str(), "4") || str_eq(t.as_str(), "invert") {
        String::from_str("invert")
    } else if str_eq(t.as_str(), "5") || str_eq(t.as_str(), "rotate90") {
        String::from_str("rotate90")
    } else if str_eq(t.as_str(), "6") || str_eq(t.as_str(), "rotate180") {
        String::from_str("rotate180")
    } else if str_eq(t.as_str(), "7") || str_eq(t.as_str(), "rotate270") {
        String::from_str("rotate270")
    } else if str_eq(t.as_str(), "8") || str_eq(t.as_str(), "blur") {
        String::from_str("blur")
    } else if str_eq(t.as_str(), "9") || str_eq(t.as_str(), "smooth filter") {
        String::from_str("smooth filter")
    } else if str_eq(t.as_str(), "10") || str_eq(t.as_str(), "sharpen filter") {
        String::from_str("sharpen filter")
    } else if str_eq(t.as_str(), "11") || str_eq(t.as_str(), "raised filter") {
        String::from_str("raised filter")
    } else {
        String::from_str("contrast")
    }
}

/// Gradient shade of a pixel coordinate: three tenths of it, capped at
/// the largest channel value.
pub open spec fn shade_spec(v: int) -> u8 {
    if 3 * v / 10 > 255 {
        255
    } else {
        (3 * v / 10) as u8
    }
}

/// Gradient shade of a pixel coordinate.
pub fn shade(v: u32) -> (r: u8)
    ensures
        r == shade_spec(v as int),
{
    let t = (3u64 * (v as u64)) / 10;
    if t > 255 {
        255
    } else {
        t as u8
    }
}

/// Background alpha: the Barnsley fern uses a stronger background than
/// the escape-time fractals.
pub open spec fn bg_alpha_spec(s: Scheme) -> u8 {
    if s.fractal@ == "barnsley"@ {
        75
    } else {
        30
    }
}

/// Background pixel of the scheme at `(x, y)`: the solid background
/// color, or one of the supported two-color blends; `None` where the
/// blend combination is unsupported and the pixel is left untouched.
pub open spec fn bg_pixel_spec(s: Scheme, x: int, y: int) -> Option<Rgba> {
    let xc = shade_spec(x);
    let yc = shade_spec(y);
    let a = bg_alpha_spec(s);
    if !s.fancy_background {
        let c = color_rgb_spec(s.bg_color);
        Some((c.0, c.1, c.2, 255))
    } else if s.bg_color == Color::Red && s.bg_color_2 == Color::Blue {
        Some((xc, 0, yc, a))
    } else if s.bg_color == Color::Red && s.bg_color_2 == Color::Green {
        Some((xc, yc, 0, a))
    } else if s.bg_color == Color::Green && s.bg_color_2 == Color::Blue {
        Some((0, xc, yc, a))
    } else if s.bg_color == Color::Green && s.bg_color_2 == Color::Red {
        Some((xc, yc, 0, a))
    } else if s.bg_color == Color::Blue && s.bg_color_2 == Color::Red {
        Some((xc, 0, yc, a))
    } else if s.bg_color == Color::Blue && s.bg_color_2 == Color::Green {
        Some((0, xc, yc, a))
    } else {
        None
    }
}

/// Background pixel of the scheme at `(x, y)`.
pub fn bg_pixel(s: &Scheme, x: u32, y: u32) -> (r: Option<Rgba>)
    ensures
        r == bg_pixel_spec(*s, x as int, y as int),
{
    let xc = shade(x);
    let yc = shade(y);
    let a: u8 = if str_eq(s.fractal.as_str(), "barnsley") {
        75
    } else {
        30
    };
    if !s.fancy_background {
        let c = color_to_rgb(s.bg_color);
        Some((c[0], c[1], c[2], 255))
    } else if s.bg_color == Color::Red && s.bg_color_2 == Color::Blue {
        Some((xc, 0, yc, a))
    } else if s.bg_color == Color::Red && s.bg_color_2 == Color::Green {
        Some((xc, yc, 0, a))
    } else if s.bg_color == Color::Green && s.bg_color_2 == Color::Blue {
        Some((0, xc, yc, a))
    } else if s.bg_color == Color::Green && s.bg_color_2 == Color::Red {
        Some((xc, yc, 0, a))
    } else if s.bg_color == Color::Blue && s.bg_color_2 == Color::Red {
        Some((xc, 0, yc, a))
    } else if s.bg_color == Color::Blue && s.bg_color_2 == Color::Green {
        Some((0, xc, yc, a))
    } else {
        None
    }
}

/// The pixel a background pass leaves at `(x, y)` when it starts from a
/// zeroed buffer: the scheme's background pixel where one is defined,
/// otherwise the zeroed pixel.
pub open spec fn base_pixel_spec(s: Scheme, x: int, y: int) -> Rgba {
    match bg_pixel_spec(s, x, y) {
        Some(p) => p,
        None => (0, 0, 0, 0),
    }
}

/// Iterate over the pixels of the buffer and apply the scheme's
/// background: the solid color, or the configured two-color blend.
/// Pixels whose blend combination is unsupported are left untouched.
pub fn apply_background(buf: &mut OutputBuffer, scheme: &Scheme)
    requires
        old(buf).wf(),
    ensures
        final(buf).wf(),
        final(buf).width == old(buf).width,
        final(buf).height == old(buf).height,
        forall|x: int, y: int|
            0 <= x < old(buf).width && 0 <= y < old(buf).height ==> (#[trigger] bg_pixel_spec(
                *scheme,
                x,
                y,
            ) matches Some(p) ==> final(buf).pixel_is(x, y, p)),
        forall|x: int, y: int, ch: int|
            0 <= x < old(buf).width && 0 <= y < old(buf).height && 0 <= ch < 4 && bg_pixel_spec(
                *scheme,
                x,
                y,
            ) is None ==> final(buf).chan(x, y, ch) == old(buf).chan(x, y, ch),
{
    let w = buf.width;
    let h = buf.height;
    let mut y: u32 = 0;
    while y < h
        invariant
            buf.wf(),
            w == buf.width,
            h == buf.height,
            y <= h,
            forall|xx: int, yy: int|
                0 <= xx < w && 0 <= yy < y ==> (#[trigger] bg_pixel_spec(*scheme, xx, yy) matches Some(p)
                    ==> buf.pixel_is(xx, yy, p)),
            forall|xx: int, yy: int, ch: int|
                0 <= xx < w && 0 <= yy < h && 0 <= ch < 4 && (yy >= y || bg_pixel_spec(
                    *scheme,
                    xx,
                    yy,
                ) is None) ==> buf.chan(xx, yy, ch) == old(buf).chan(xx, yy, ch),
        decreases h - y,
    {
        let mut x: u32 = 0;
        while x < w
            invariant
                buf.wf(),
                w == buf.width,
                h == buf.height,
                y < h,
                x <= w,
                forall|xx: int, yy: int|
                    0 <= xx < w && (0 <= yy < y || (yy == y && 0 <= xx < x)) ==> (#[trigger] bg_pixel_spec(
                        *scheme,
                        xx,
                        yy,
                    ) matches Some(p) ==> buf.pixel_is(xx, yy, p)),
                forall|xx: int, yy: int, ch: int|
                    0 <= xx < w && 0 <= yy < h && 0 <= ch < 4 && (yy > y || (yy == y && xx >= x)
                        || bg_pixel_spec(*scheme, xx, yy) is None) ==> buf.chan(xx, yy, ch)
                        == old(buf).chan(xx, yy, ch),
            decreases w - x,
        {
            match bg_pixel(scheme, x, y) {
                Some(p) => {
                    buf.set_pixel(x, y, p);
                },
                None => {},
            }
            x = x + 1;
        }
        y = y + 1;
    }
}

/// Colors an escape-time renderer can draw the fractal itself in: one of
/// the three RGB channels, or white for a grayscale-in-color image.
/// Other colors are rejected when the render is configured.
pub open spec fn rgb_color(c: Color) -> bool {
    c == Color::Red || c == Color::Green || c == Color::Blue || c == Color::White
}

/// Final pixel of an escaped-time fractal point: the iteration byte
/// replaces the channels selected by `color`, the remaining channels of
/// the background pixel stay.
pub open spec fn fractal_pixel_spec(color: Color, n: u8, base: Rgba) -> Rgba {
    if color == Color::Red {
        (n, base.1, base.2, base.3)
    } else if color == Color::Green {
        (base.0, n, base.2, base.3)
    } else if color == Color::Blue {
        (base.0, base.1, n, base.3)
    } else {
        (n, n, n, base.3)
    }
}

/// Apply the fractal color policy to one pixel.
pub fn fractal_pixel(color: Color, n: u8, base: Rgba) -> (r: Rgba)
    requires
        rgb_color(color),
    ensures
        r == fractal_pixel_spec(color, n, base),
{
    if color == Color::Red {
        (n, base.1, base.2, base.3)
    } else if color == Color::Green {
        (base.0, n, base.2, base.3)
    } else if color == Color::Blue {
        (base.0, base.1, n, base.3)
    } else {
        (n, n, n, base.3)
    }
}

} // verus!
