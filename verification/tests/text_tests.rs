use fractals::color::{color_option_filter, transform_determine};
use fractals::text::{str_eq, trim_lower};

#[test]
fn test_trim_lower_normalizes_input() {
    assert_eq!("abc", trim_lower("  AbC\n"));
    assert_eq!("", trim_lower(" \t\r\n"));
    assert_eq!("8", trim_lower("8"));
}

#[test]
fn test_str_eq_matches_string_equality() {
    assert!(str_eq("green", "green"));
    assert!(!str_eq("green", "greeN"));
    assert!(!str_eq("green", "gree"));
    assert!(str_eq("", ""));
}

#[test]
fn test_color_option_filter_ranges() {
    assert_eq!("5", color_option_filter("5", true));
    assert_eq!("1", color_option_filter("5", false));
    assert_eq!("1", color_option_filter("9", true));
    // A valid choice is passed through untrimmed for the next stage.
    assert_eq!(" 3\n", color_option_filter(" 3\n", false));
}

#[test]
fn test_transform_determine_choices() {
    assert_eq!("invert", transform_determine("4"));
    assert_eq!("blur", transform_determine("BLUR"));
    assert_eq!("raised filter", transform_determine("11"));
    assert_eq!("contrast", transform_determine("huh"));
}
