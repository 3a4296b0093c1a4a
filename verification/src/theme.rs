//! Catppuccin colours for each part of the view, and the stops of the magnitude ramp.
//!
//! Terminals without 24-bit colour get named colours instead, so the palette follows the
//! terminal's own theme.

use vstd::prelude::*;
use catppuccin::{ColorName, FlavorName, PALETTE};
use crate::cli::Flavour;
use crate::power::State;

verus! {

/// The palette colours the view uses.
#[derive(Debug, Clone, Copy, PartialEq, Eq, Structural)]
pub enum PaletteColor {
    Text,
    Overlay1,
    Mauve,
    Surface1,
    Green,
    Yellow,
    Peach,
    Red,
}

/// Named terminal colours, used where 24-bit colour is unavailable.
#[derive(Debug, Clone, Copy, PartialEq, Eq, Structural)]
pub enum Named {
    White,
    DarkGray,
    Magenta,
    Green,
    Yellow,
    LightRed,
    Red,
}

/// A colour as the terminal is asked to paint it.
#[derive(Debug, Clone, Copy, PartialEq, Eq, Structural)]
pub enum Tone {
    Rgb(u8, u8, u8),
    Named(Named),
}

/// What a piece of the view is coloured as.
#[derive(Debug, Clone, Copy, PartialEq, Eq, Structural)]
pub enum Role {
    Text,
    Dim,
    Accent,
    Border,
    Charging,
}

/// The red, green and blue channels catppuccin gives `color` in `flavour`.
pub uninterp spec fn palette_rgb_of(flavour: Flavour, color: PaletteColor) -> (u8, u8, u8);

/// `Palette::get_flavor` and `Flavor::get_color` of catppuccin, read on `PALETTE`: the
/// channels of a palette colour. The contract claims only that the channels are a function
/// of the flavour and the colour (the palette is a table of constants); their values are
/// not stated.
#[verifier::external_body]
fn palette_rgb(flavour: Flavour, color: PaletteColor) -> (rgb: (u8, u8, u8))
    ensures
        rgb == palette_rgb_of(flavour, color),
{
    let name = match flavour {
        Flavour::Latte => FlavorName::Latte, Flavour::Frappe => FlavorName::Frappe,
        Flavour::Macchiato => FlavorName::Macchiato, Flavour::Mocha => FlavorName::Mocha,
    };
    let color = match color {
        PaletteColor::Text => ColorName::Text, PaletteColor::Overlay1 => ColorName::Overlay1,
        PaletteColor::Mauve => ColorName::Mauve, PaletteColor::Surface1 => ColorName::Surface1,
        PaletteColor::Green => ColorName::Green, PaletteColor::Yellow => ColorName::Yellow,
        PaletteColor::Peach => ColorName::Peach, PaletteColor::Red => ColorName::Red,
    };
    let rgb = PALETTE.get_flavor(name).get_color(color).rgb;
    (rgb.r, rgb.g, rgb.b)
}

/// The palette colour each role takes.
pub open spec fn role_color(role: Role) -> PaletteColor {
    match role {
        Role::Text => PaletteColor::Text,
        Role::Dim => PaletteColor::Overlay1,
        Role::Accent => PaletteColor::Mauve,
        Role::Border => PaletteColor::Surface1,
        Role::Charging => PaletteColor::Green,
    }
}

/// The nearest named colour each role falls back to.
pub open spec fn role_fallback(role: Role) -> Named {
    match role {
        Role::Text => Named::White,
        Role::Dim => Named::DarkGray,
        Role::Accent => Named::Magenta,
        Role::Border => Named::DarkGray,
        Role::Charging => Named::Green,
    }
}

/// The colour of a role: its palette colour, or its nearest named equivalent where 24-bit
/// colour is unavailable.
pub fn shade(flavour: Flavour, truecolor: bool, role: Role) -> (t: Tone)
    ensures
        t == if truecolor {
            let (r, g, b) = palette_rgb_of(flavour, role_color(role));
            Tone::Rgb(r, g, b)
        } else {
            Tone::Named(role_fallback(role))
        },
{
    if !truecolor {
        return Tone::Named(
            match role {
                Role::Text => Named::White,
                Role::Dim => Named::DarkGray,
                Role::Accent => Named::Magenta,
                Role::Border => Named::DarkGray,
                Role::Charging => Named::Green,
            },
        );
    }
    let color = match role {
        Role::Text => PaletteColor::Text,
        Role::Dim => PaletteColor::Overlay1,
        Role::Accent => PaletteColor::Mauve,
        Role::Border => PaletteColor::Surface1,
        Role::Charging => PaletteColor::Green,
    };
    let (r, g, b) = palette_rgb(flavour, color);
    Tone::Rgb(r, g, b)
}

/// How the battery state is coloured in the header: on AC it reads as charging.
pub fn state_role(state: State) -> (r: Role)
    ensures
        r == match state {
            State::Charging | State::Full => Role::Charging,
            _ => Role::Dim,
        },
{
    match state {
        State::Charging | State::Full => Role::Charging,
        _ => Role::Dim,
    }
}

/// btop's cool-to-hot ramp: green at rest, red at the peak.
pub fn ramp(flavour: Flavour) -> (stops: [(u8, u8, u8); 4])
    ensures
        stops@ == seq![
            palette_rgb_of(flavour, PaletteColor::Green),
            palette_rgb_of(flavour, PaletteColor::Yellow),
            palette_rgb_of(flavour, PaletteColor::Peach),
            palette_rgb_of(flavour, PaletteColor::Red),
        ],
{
    let stops = [
        palette_rgb(flavour, PaletteColor::Green),
        palette_rgb(flavour, PaletteColor::Yellow),
        palette_rgb(flavour, PaletteColor::Peach),
        palette_rgb(flavour, PaletteColor::Red),
    ];
    assert(stops@ =~= seq![
        palette_rgb_of(flavour, PaletteColor::Green),
        palette_rgb_of(flavour, PaletteColor::Yellow),
        palette_rgb_of(flavour, PaletteColor::Peach),
        palette_rgb_of(flavour, PaletteColor::Red),
    ]);
    stops
}

/// The same four stops as named colours, for terminals without 24-bit colour. Stepped
/// rather than interpolated, so the ramp stays legible under the terminal's own theme.
pub fn ansi_ramp() -> (stops: [Named; 4])
    ensures
        stops@ == seq![Named::Green, Named::Yellow, Named::LightRed, Named::Red],
{
    let stops = [Named::Green, Named::Yellow, Named::LightRed, Named::Red];
    assert(stops@ =~= seq![Named::Green, Named::Yellow, Named::LightRed, Named::Red]);
    stops
}

} // verus!
