use catppuccin::PALETTE;
use wattmeter::cli::Flavour;
use wattmeter::power::State;
use wattmeter::theme::{Named, Role, Tone, ansi_ramp, ramp, shade, state_role};

fn channels(c: catppuccin::Rgb) -> (u8, u8, u8) {
    (c.r, c.g, c.b)
}

#[test]
fn ramp_starts_green_and_ends_red() {
    let stops = ramp(Flavour::Mocha);
    assert_eq!(stops[0], channels(PALETTE.mocha.colors.green.rgb));
    assert_eq!(stops[3], channels(PALETTE.mocha.colors.red.rgb));
    let latte = ramp(Flavour::Latte);
    assert_eq!(latte[1], channels(PALETTE.latte.colors.yellow.rgb));
    assert_eq!(latte[2], channels(PALETTE.latte.colors.peach.rgb));
}

#[test]
fn every_flavour_exposes_the_ramp() {
    for flavour in [Flavour::Latte, Flavour::Frappe, Flavour::Macchiato, Flavour::Mocha] {
        let stops = ramp(flavour);
        assert_eq!(stops.len(), 4, "{flavour:?} is missing ramp stops");
    }
    assert_eq!(ansi_ramp(), [Named::Green, Named::Yellow, Named::LightRed, Named::Red]);
}

#[test]
fn roles_take_palette_colours_or_named_fallbacks() {
    let (r, g, b) = channels(PALETTE.frappe.colors.mauve.rgb);
    assert_eq!(shade(Flavour::Frappe, true, Role::Accent), Tone::Rgb(r, g, b));
    let (r, g, b) = channels(PALETTE.mocha.colors.overlay1.rgb);
    assert_eq!(shade(Flavour::Mocha, true, Role::Dim), Tone::Rgb(r, g, b));
    assert_eq!(shade(Flavour::Mocha, false, Role::Dim), Tone::Named(Named::DarkGray));
    assert_eq!(shade(Flavour::Latte, false, Role::Text), Tone::Named(Named::White));
}

#[test]
fn colours_the_state_by_direction() {
    assert_eq!(state_role(State::Charging), Role::Charging);
    assert_eq!(state_role(State::Full), Role::Charging);
    assert_eq!(state_role(State::Discharging), Role::Dim);
}
