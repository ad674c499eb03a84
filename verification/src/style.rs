//! Colors and styles: the plain values that decide how a cell is painted.

use vstd::prelude::*;

verus! {

/// One color, four channels wide.
///
/// Each channel holds the bit pattern of a single-precision value, normally in
/// the unit interval. The grid never computes with a channel; it only asks
/// whether two colors are the same, and two colors are the same exactly when
/// all four patterns agree.
#[derive(Clone, Copy, Debug, PartialEq, Eq, Structural)]
pub struct Color {
    pub r: u32,
    pub g: u32,
    pub b: u32,
    pub a: u32,
}

/// Channel pattern of the value one.
pub const CHANNEL_FULL: u32 = 0x3F80_0000;

/// Channel pattern of the value one half.
pub const CHANNEL_HALF: u32 = 0x3F00_0000;

/// Channel pattern of the value zero.
pub const CHANNEL_NONE: u32 = 0;

impl Color {
    pub fn new(r: u32, g: u32, b: u32, a: u32) -> (color: Color)
        ensures
            color == (Color { r, g, b, a }),
    {
        Color { r, g, b, a }
    }

    /// Opaque white.
    pub open spec fn spec_white() -> Color {
        Color { r: CHANNEL_FULL, g: CHANNEL_FULL, b: CHANNEL_FULL, a: CHANNEL_FULL }
    }

    /// Opaque black.
    pub open spec fn spec_black() -> Color {
        Color { r: CHANNEL_NONE, g: CHANNEL_NONE, b: CHANNEL_NONE, a: CHANNEL_FULL }
    }

    /// Opaque mid grey.
    pub open spec fn spec_grey() -> Color {
        Color { r: CHANNEL_HALF, g: CHANNEL_HALF, b: CHANNEL_HALF, a: CHANNEL_FULL }
    }

    #[verifier::when_used_as_spec(spec_white)]
    pub fn white() -> (color: Color)
        ensures
            color == Color::spec_white(),
    {
        Color { r: CHANNEL_FULL, g: CHANNEL_FULL, b: CHANNEL_FULL, a: CHANNEL_FULL }
    }

    #[verifier::when_used_as_spec(spec_black)]
    pub fn black() -> (color: Color)
        ensures
            color == Color::spec_black(),
    {
        Color { r: CHANNEL_NONE, g: CHANNEL_NONE, b: CHANNEL_NONE, a: CHANNEL_FULL }
    }

    #[verifier::when_used_as_spec(spec_grey)]
    pub fn grey() -> (color: Color)
        ensures
            color == Color::spec_grey(),
    {
        Color { r: CHANNEL_HALF, g: CHANNEL_HALF, b: CHANNEL_HALF, a: CHANNEL_FULL }
    }
}

/// The three colors of a style. A color that is `None` is left to the renderer.
#[derive(Clone, Copy, Debug, PartialEq, Eq, Structural)]
pub struct Colors {
    pub foreground: Option<Color>,
    pub background: Option<Color>,
    pub special: Option<Color>,
}

impl Colors {
    pub fn new(foreground: Option<Color>, background: Option<Color>, special: Option<Color>) -> (colors: Colors)
        ensures
            colors == (Colors { foreground, background, special }),
    {
        Colors { foreground, background, special }
    }
}

/// How a cell is painted: its colors, its attribute flags and its blend level.
///
/// Two styles are equal exactly when every field is equal.
#[derive(Clone, Copy, Debug, PartialEq, Eq, Structural)]
pub struct Style {
    pub colors: Colors,
    pub reverse: bool,
    pub italic: bool,
    pub bold: bool,
    pub strikethrough: bool,
    pub underline: bool,
    pub undercurl: bool,
    pub blend: u8,
}

impl Style {
    /// The style with the given colors, every attribute off and no blending.
    pub open spec fn plain(colors: Colors) -> Style {
        Style {
            colors,
            reverse: false,
            italic: false,
            bold: false,
            strikethrough: false,
            underline: false,
            undercurl: false,
            blend: 0,
        }
    }

    /// Builds the plain style of the given colors.
    pub fn new(colors: Colors) -> (style: Style)
        ensures
            style == Style::plain(colors),
    {
        Style {
            colors,
            reverse: false,
            italic: false,
            bold: false,
            strikethrough: false,
            underline: false,
            undercurl: false,
            blend: 0,
        }
    }
}

} // verus!
