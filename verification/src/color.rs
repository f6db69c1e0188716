use vstd::prelude::*;

verus! {

/// One pixel of decoded raster art, channels 0-255.
#[derive(Clone, Copy, PartialEq, Eq, Structural, Debug)]
pub struct Rgb {
    /// Red channel.
    pub r: u8,
    /// Green channel.
    pub g: u8,
    /// Blue channel.
    pub b: u8,
}

/// Color carried by one cell of a frame.
///
/// A cell is either bare (drawn without any escape sequence), tinted with a
/// named ANSI SGR code, or tinted with an explicit 24-bit color.
#[derive(Clone, Copy, PartialEq, Eq, Structural, Debug)]
pub enum CellColor {
    /// No color: the glyph is emitted bare.
    Blank,
    /// A named ANSI foreground code (30-37 or 90-97).
    Named(u8),
    /// An explicit 24-bit color, channels 0-255.
    Rgb(u8, u8, u8),
}

/// How a frame is serialized to escape sequences.
#[derive(Clone, Copy, PartialEq, Eq, Structural, Debug)]
pub enum ColorMode {
    /// 24-bit color escapes.
    TrueColor,
    /// The 256-color palette: a 6x6x6 cube plus a 24-step gray ramp.
    Ansi256,
    /// Glyphs only, no escapes.
    Mono,
}

/// Largest of three channel values.
pub open spec fn spec_max3(r: int, g: int, b: int) -> int {
    if r >= g && r >= b {
        r
    } else if g >= b {
        g
    } else {
        b
    }
}

/// Smallest of three channel values.
pub open spec fn spec_min3(r: int, g: int, b: int) -> int {
    if r <= g && r <= b {
        r
    } else if g <= b {
        g
    } else {
        b
    }
}

/// Mean gray level of a color, rounded down.
pub open spec fn spec_gray_level(r: int, g: int, b: int) -> int {
    (r + g + b) / 3
}

/// A color is rendered on the gray ramp when its channels lie within 12 of
/// one another and its gray level is strictly inside (8, 248).
pub open spec fn spec_is_grayish(r: int, g: int, b: int) -> bool {
    &&& spec_max3(r, g, b) - spec_min3(r, g, b) <= 12
    &&& 8 < spec_gray_level(r, g, b) < 248
}

/// Index of a channel on the 6-level color cube (levels 0,95,135,175,215,255).
pub open spec fn spec_cube_channel(c: int) -> int {
    if c < 48 {
        0
    } else if c < 114 {
        1
    } else {
        (c - 35) / 40
    }
}

/// Index on the 24-step gray ramp (entries 232-255 cover levels 8..238).
pub open spec fn spec_gray_index(level: int) -> int {
    (level - 8) / 10
}

/// The palette entry that a 24-bit color quantizes to.
pub open spec fn spec_quantize_256(r: int, g: int, b: int) -> int {
    if spec_is_grayish(r, g, b) {
        232 + spec_gray_index(spec_gray_level(r, g, b))
    } else {
        16 + 36 * spec_cube_channel(r) + 6 * spec_cube_channel(g) + spec_cube_channel(b)
    }
}

/// Quantizes a 24-bit color to the 256-color palette.
///
/// Near-gray colors (channels mutually within 12, gray level strictly
/// between 8 and 248) land on the gray ramp (232-255); every other color
/// lands on the 6x6x6 cube (16-231). The result is a fixed deterministic
/// function of the channels.
pub fn quantize_256(r: u8, g: u8, b: u8) -> (c: u8)
    ensures
        c == spec_quantize_256(r as int, g as int, b as int),
        16 <= c,
{
    let max: u8 = if r >= g && r >= b {
        r
    } else if g >= b {
        g
    } else {
        b
    };
    let min: u8 = if r <= g && r <= b {
        r
    } else if g <= b {
        g
    } else {
        b
    };
    let level: u16 = (r as u16 + g as u16 + b as u16) / 3;
    if max - min <= 12 && 8 < level && level < 248 {
        232 + ((level - 8) / 10) as u8
    } else {
        16 + 36 * cube_channel(r) + 6 * cube_channel(g) + cube_channel(b)
    }
}

/// Index of one channel on the 6-level cube.
fn cube_channel(c: u8) -> (i: u8)
    ensures
        i == spec_cube_channel(c as int),
        i <= 5,
{
    if c < 48 {
        0
    } else if c < 114 {
        1
    } else {
        (c - 35) / 40
    }
}

} // verus!
