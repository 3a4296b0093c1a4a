use wattmeter::cli::{wants_truecolor, ColorMode};

#[test]
fn auto_detects_truecolor_from_the_environment() {
    assert!(wants_truecolor(ColorMode::Auto, Some("truecolor")));
    assert!(wants_truecolor(ColorMode::Auto, Some("24bit")));
    assert!(!wants_truecolor(ColorMode::Auto, Some("")));
    assert!(!wants_truecolor(ColorMode::Auto, None));
}

#[test]
fn explicit_modes_ignore_the_environment() {
    assert!(wants_truecolor(ColorMode::Truecolor, None));
    assert!(!wants_truecolor(ColorMode::Ansi, Some("truecolor")));
}

#[test]
fn finds_the_advertisement_anywhere_in_the_value() {
    assert!(wants_truecolor(ColorMode::Auto, Some("x-24-bit-y")));
    assert!(!wants_truecolor(ColorMode::Auto, Some("256color")));
    assert!(!wants_truecolor(ColorMode::Auto, Some("TRUECOLOR")));
}
