//! Command-line choices, and the colour-depth decision they feed.

use vstd::prelude::*;
use crate::text::{contains, contains_view};

verus! {

/// Catppuccin flavour.
#[derive(Copy, Clone, Debug, PartialEq, Eq, Structural)]
pub enum Flavour {
    Latte,
    Frappe,
    Macchiato,
    Mocha,
}

/// Chart marker. Braille is finest but needs a font with the Braille Patterns block.
#[derive(Copy, Clone, Debug, PartialEq, Eq, Structural)]
pub enum MarkerKind {
    Braille,
    HalfBlock,
    Block,
    Dot,
}

/// Whether the CPU power panel is shown.
#[derive(Copy, Clone, Debug, PartialEq, Eq, Structural)]
pub enum RaplMode {
    /// Show the panel when the counters are readable, and stay quiet when they are not
    Auto,
    /// Require the panel, and refuse to start if the counters cannot be read
    On,
    /// Never show it
    Off,
}

/// Colour depth.
#[derive(Copy, Clone, Debug, PartialEq, Eq, Structural)]
pub enum ColorMode {
    /// Use 24-bit colour if `COLORTERM` advertises it
    Auto,
    /// Always emit 24-bit colour
    Truecolor,
    /// Use the terminal's own 16 colours, so the palette follows its theme
    Ansi,
}

/// `COLORTERM` advertises 24-bit colour.
pub open spec fn advertises_truecolor(v: Seq<char>) -> bool {
    contains_view(v, "truecolor"@) || contains_view(v, "24bit"@) || contains_view(v, "24-bit"@)
}

/// Whether to emit 24-bit colour.
///
/// Terminals that cannot render it quantise every shade of the gradient to the nearest
/// entry in their own palette, which collapses sixteen bands into a handful of steps.
/// Falling back to named colours instead keeps the ramp legible and lets the terminal's
/// theme drive it.
pub fn wants_truecolor(mode: ColorMode, colorterm: Option<&str>) -> (r: bool)
    ensures
        r == match mode {
            ColorMode::Truecolor => true,
            ColorMode::Ansi => false,
            ColorMode::Auto => match colorterm {
                Some(v) => advertises_truecolor(v@),
                None => false,
            },
        },
{
    match mode {
        ColorMode::Truecolor => true,
        ColorMode::Ansi => false,
        ColorMode::Auto => match colorterm {
            Some(v) => contains(v, "truecolor") || contains(v, "24bit") || contains(v, "24-bit"),
            None => false,
        },
    }
}

} // verus!
