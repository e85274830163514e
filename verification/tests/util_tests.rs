use fractals::color::{color_to_rgb, str_to_color, Color};
use fractals::parse::parse_pair;

#[test]
fn test_good_parse_pair_input() {
    assert_eq!(Some((600, 600)), parse_pair("600x600", 'x'));
}

#[test]
fn test_bad_parse_pair_input() {
    assert_eq!(None, parse_pair("", 'x'));
}

#[test]
fn test_default_color() {
    assert_eq!(Color::Black, str_to_color("badInput"));
}

#[test]
fn test_entered_color() {
    assert_eq!(Color::Violet, str_to_color("violet"));
}

#[test]
fn test_rgb_data() {
    assert_eq!([238u8, 130u8, 238u8], color_to_rgb(Color::Violet));
}

#[test]
fn test_parse_pair_rejects_extra_separator() {
    assert_eq!(None, parse_pair("600x600x600", 'x'));
}

#[test]
fn test_parse_pair_rejects_empty_side() {
    assert_eq!(None, parse_pair("600x", 'x'));
    assert_eq!(None, parse_pair("x600", 'x'));
}

#[test]
fn test_parse_pair_rejects_sign_and_garbage() {
    assert_eq!(None, parse_pair("-5x7", 'x'));
    assert_eq!(None, parse_pair("12ax34", 'x'));
}

#[test]
fn test_parse_pair_limits() {
    assert_eq!(Some((4294967295, 1)), parse_pair("4294967295x1", 'x'));
    assert_eq!(None, parse_pair("4294967296x1", 'x'));
}

#[test]
fn test_parse_pair_other_separator() {
    assert_eq!(Some((12, 34)), parse_pair("12,34", ','));
}

#[test]
fn test_str_to_color_all_names() {
    assert_eq!(Color::Red, str_to_color("red"));
    assert_eq!(Color::Orange, str_to_color("orange"));
    assert_eq!(Color::Yellow, str_to_color("yellow"));
    assert_eq!(Color::Blue, str_to_color("blue"));
    assert_eq!(Color::Green, str_to_color("green"));
    assert_eq!(Color::Black, str_to_color("black"));
    assert_eq!(Color::White, str_to_color("white"));
}
