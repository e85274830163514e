use fractals::color::color_determine;

#[test]
fn test_color_determine_number_input() {
    assert_eq!("violet".to_string(), color_determine("6".to_string(), false));
}

#[test]
fn test_color_determine_caps_word_input() {
    assert_eq!("blue".to_string(), color_determine("BLUE".to_string(), false));
}

#[test]
fn test_color_determine_bad_input() {
    assert_eq!("huh".to_string(), color_determine("Huh".to_string(), false));
}

#[test]
fn test_color_determine_extensive_numbers() {
    assert_eq!("orange".to_string(), color_determine("2".to_string(), true));
    assert_eq!("yellow".to_string(), color_determine("3".to_string(), true));
    assert_eq!("green".to_string(), color_determine("4".to_string(), true));
    assert_eq!("black".to_string(), color_determine("8".to_string(), true));
}

#[test]
fn test_color_determine_trims_whitespace() {
    assert_eq!("red".to_string(), color_determine(" 1\n".to_string(), false));
}
