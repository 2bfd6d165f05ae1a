//! Terminal colors as RGB triples: the sixteen named colors, the special
//! named colors, the 256-color palette and direct RGB colors.
use vstd::prelude::*;

verus! {

/// A 24-bit color.
#[derive(Clone, Copy, Debug, PartialEq, Eq, Structural)]
pub struct Rgb {
    pub r: u8,
    pub g: u8,
    pub b: u8,
}

/// The named colors of a terminal palette.
#[derive(Clone, Copy, Debug, PartialEq, Eq, Structural)]
pub enum NamedColor {
    Black,
    Red,
    Green,
    Yellow,
    Blue,
    Magenta,
    Cyan,
    White,
    BrightBlack,
    BrightRed,
    BrightGreen,
    BrightYellow,
    BrightBlue,
    BrightMagenta,
    BrightCyan,
    BrightWhite,
    Foreground,
    Background,
    Cursor,
    DimBlack,
    DimRed,
    DimGreen,
    DimYellow,
    DimBlue,
    DimMagenta,
    DimCyan,
    DimWhite,
    BrightForeground,
    DimForeground,
}

/// A cell color: a named color, a direct RGB color, or a palette index.
#[derive(Clone, Copy, Debug, PartialEq, Eq, Structural)]
pub enum Color {
    Named(NamedColor),
    Spec(Rgb),
    Indexed(u8),
}

pub open spec fn rgb(r: u8, g: u8, b: u8) -> Rgb {
    Rgb { r, g, b }
}

/// The RGB value of each named color.
pub open spec fn named_rgb(named: NamedColor) -> Rgb {
    match named {
        NamedColor::Black => rgb(0x00, 0x00, 0x00),
        NamedColor::Red => rgb(0xCD, 0x00, 0x00),
        NamedColor::Green => rgb(0x00, 0xCD, 0x00),
        NamedColor::Yellow => rgb(0xCD, 0xCD, 0x00),
        NamedColor::Blue => rgb(0x00, 0x00, 0xEE),
        NamedColor::Magenta => rgb(0xCD, 0x00, 0xCD),
        NamedColor::Cyan => rgb(0x00, 0xCD, 0xCD),
        NamedColor::White => rgb(0xE5, 0xE5, 0xE5),
        NamedColor::BrightBlack => rgb(0x7F, 0x7F, 0x7F),
        NamedColor::BrightRed => rgb(0xFF, 0x00, 0x00),
        NamedColor::BrightGreen => rgb(0x00, 0xFF, 0x00),
        NamedColor::BrightYellow => rgb(0xFF, 0xFF, 0x00),
        NamedColor::BrightBlue => rgb(0x5C, 0x5C, 0xFF),
        NamedColor::BrightMagenta => rgb(0xFF, 0x00, 0xFF),
        NamedColor::BrightCyan => rgb(0x00, 0xFF, 0xFF),
        NamedColor::BrightWhite => rgb(0xFF, 0xFF, 0xFF),
        NamedColor::Foreground => rgb(0xE5, 0xE5, 0xE5),
        NamedColor::Background => rgb(0x00, 0x00, 0x00),
        NamedColor::Cursor => rgb(0xFF, 0xFF, 0xFF),
        NamedColor::DimBlack => rgb(0x00, 0x00, 0x00),
        NamedColor::DimRed => rgb(0x8B, 0x00, 0x00),
        NamedColor::DimGreen => rgb(0x00, 0x8B, 0x00),
        NamedColor::DimYellow => rgb(0x8B, 0x8B, 0x00),
        NamedColor::DimBlue => rgb(0x00, 0x00, 0x8B),
        NamedColor::DimMagenta => rgb(0x8B, 0x00, 0x8B),
        NamedColor::DimCyan => rgb(0x00, 0x8B, 0x8B),
        NamedColor::DimWhite => rgb(0xA8, 0xA8, 0xA8),
        NamedColor::BrightForeground => rgb(0xFF, 0xFF, 0xFF),
        NamedColor::DimForeground => rgb(0xA8, 0xA8, 0xA8),
    }
}

/// The named color that stands at palette index `idx` (`idx < 16`).
pub open spec fn standard_named(idx: u8) -> NamedColor
    recommends
        idx < 16,
{
    if idx == 0 {
        NamedColor::Black
    } else if idx == 1 {
        NamedColor::Red
    } else if idx == 2 {
        NamedColor::Green
    } else if idx == 3 {
        NamedColor::Yellow
    } else if idx == 4 {
        NamedColor::Blue
    } else if idx == 5 {
        NamedColor::Magenta
    } else if idx == 6 {
        NamedColor::Cyan
    } else if idx == 7 {
        NamedColor::White
    } else if idx == 8 {
        NamedColor::BrightBlack
    } else if idx == 9 {
        NamedColor::BrightRed
    } else if idx == 10 {
        NamedColor::BrightGreen
    } else if idx == 11 {
        NamedColor::BrightYellow
    } else if idx == 12 {
        NamedColor::BrightBlue
    } else if idx == 13 {
        NamedColor::BrightMagenta
    } else if idx == 14 {
        NamedColor::BrightCyan
    } else {
        NamedColor::BrightWhite
    }
}

/// One axis of the 6x6x6 color cube: level 0 is dark, levels 1..=5 are
/// 95, 135, 175, 215, 255.
pub open spec fn cube_level(v: int) -> int {
    if v > 0 {
        v * 40 + 55
    } else {
        0
    }
}

/// The RGB value of a 256-color palette index: the sixteen standard colors,
/// the 6x6x6 cube (16..=231) and the 24-step gray ramp (232..=255).
pub open spec fn indexed_rgb(idx: u8) -> Rgb {
    if idx < 16 {
        named_rgb(standard_named(idx))
    } else if idx < 232 {
        let i = idx - 16;
        Rgb {
            r: cube_level((i / 36) % 6) as u8,
            g: cube_level((i / 6) % 6) as u8,
            b: cube_level(i % 6) as u8,
        }
    } else {
        let gray = ((idx - 232) * 10 + 8) as u8;
        Rgb { r: gray, g: gray, b: gray }
    }
}

/// The RGB value of any cell color.
pub open spec fn color_rgb_spec(color: Color) -> Rgb {
    match color {
        Color::Named(named) => named_rgb(named),
        Color::Spec(c) => c,
        Color::Indexed(idx) => indexed_rgb(idx),
    }
}

/// Converts a named color to its RGB value.
pub fn named_color_rgb(named: NamedColor) -> (c: Rgb)
    ensures
        c == named_rgb(named),
{
    match named {
        NamedColor::Black => Rgb { r: 0x00, g: 0x00, b: 0x00 },
        NamedColor::Red => Rgb { r: 0xCD, g: 0x00, b: 0x00 },
        NamedColor::Green => Rgb { r: 0x00, g: 0xCD, b: 0x00 },
        NamedColor::Yellow => Rgb { r: 0xCD, g: 0xCD, b: 0x00 },
        NamedColor::Blue => Rgb { r: 0x00, g: 0x00, b: 0xEE },
        NamedColor::Magenta => Rgb { r: 0xCD, g: 0x00, b: 0xCD },
        NamedColor::Cyan => Rgb { r: 0x00, g: 0xCD, b: 0xCD },
        NamedColor::White => Rgb { r: 0xE5, g: 0xE5, b: 0xE5 },
        NamedColor::BrightBlack => Rgb { r: 0x7F, g: 0x7F, b: 0x7F },
        NamedColor::BrightRed => Rgb { r: 0xFF, g: 0x00, b: 0x00 },
        NamedColor::BrightGreen => Rgb { r: 0x00, g: 0xFF, b: 0x00 },
        NamedColor::BrightYellow => Rgb { r: 0xFF, g: 0xFF, b: 0x00 },
        NamedColor::BrightBlue => Rgb { r: 0x5C, g: 0x5C, b: 0xFF },
        NamedColor::BrightMagenta => Rgb { r: 0xFF, g: 0x00, b: 0xFF },
        NamedColor::BrightCyan => Rgb { r: 0x00, g: 0xFF, b: 0xFF },
        NamedColor::BrightWhite => Rgb { r: 0xFF, g: 0xFF, b: 0xFF },
        NamedColor::Foreground => Rgb { r: 0xE5, g: 0xE5, b: 0xE5 },
        NamedColor::Background => Rgb { r: 0x00, g: 0x00, b: 0x00 },
        NamedColor::Cursor => Rgb { r: 0xFF, g: 0xFF, b: 0xFF },
        NamedColor::DimBlack => Rgb { r: 0x00, g: 0x00, b: 0x00 },
        NamedColor::DimRed => Rgb { r: 0x8B, g: 0x00, b: 0x00 },
        NamedColor::DimGreen => Rgb { r: 0x00, g: 0x8B, b: 0x00 },
        NamedColor::DimYellow => Rgb { r: 0x8B, g: 0x8B, b: 0x00 },
        NamedColor::DimBlue => Rgb { r: 0x00, g: 0x00, b: 0x8B },
        NamedColor::DimMagenta => Rgb { r: 0x8B, g: 0x00, b: 0x8B },
        NamedColor::DimCyan => Rgb { r: 0x00, g: 0x8B, b: 0x8B },
        NamedColor::DimWhite => Rgb { r: 0xA8, g: 0xA8, b: 0xA8 },
        NamedColor::BrightForeground => Rgb { r: 0xFF, g: 0xFF, b: 0xFF },
        NamedColor::DimForeground => Rgb { r: 0xA8, g: 0xA8, b: 0xA8 },
    }
}

fn cube_component(v: u8) -> (c: u8)
    requires
        v < 6,
    ensures
        c == cube_level(v as int),
{
    if v > 0 {
        v * 40 + 55
    } else {
        0
    }
}

/// Converts a 256-color palette index to its RGB value.
pub fn indexed_color_rgb(idx: u8) -> (c: Rgb)
    ensures
        c == indexed_rgb(idx),
{
    if idx < 16 {
        let named = match idx {
            0 => NamedColor::Black,
            1 => NamedColor::Red,
            2 => NamedColor::Green,
            3 => NamedColor::Yellow,
            4 => NamedColor::Blue,
            5 => NamedColor::Magenta,
            6 => NamedColor::Cyan,
            7 => NamedColor::White,
            8 => NamedColor::BrightBlack,
            9 => NamedColor::BrightRed,
            10 => NamedColor::BrightGreen,
            11 => NamedColor::BrightYellow,
            12 => NamedColor::BrightBlue,
            13 => NamedColor::BrightMagenta,
            14 => NamedColor::BrightCyan,
            _ => NamedColor::BrightWhite,
        };
        named_color_rgb(named)
    } else if idx < 232 {
        let i = idx - 16;
        let r = cube_component((i / 36) % 6);
        let g = cube_component((i / 6) % 6);
        let b = cube_component(i % 6);
        Rgb { r, g, b }
    } else {
        let gray = (idx - 232) * 10 + 8;
        Rgb { r: gray, g: gray, b: gray }
    }
}

/// Converts any cell color to its RGB value.
pub fn color_rgb(color: &Color) -> (c: Rgb)
    ensures
        c == color_rgb_spec(*color),
{
    match color {
        Color::Named(named) => named_color_rgb(*named),
        Color::Spec(c) => *c,
        Color::Indexed(idx) => indexed_color_rgb(*idx),
    }
}

/// The first sixteen palette entries are the standard named colors, in order.
pub proof fn lemma_palette_starts_with_named(idx: u8)
    requires
        idx < 16,
    ensures
        indexed_rgb(idx) == named_rgb(standard_named(idx)),
{
}

/// The sixteen standard colors of the palette, in the standard ANSI order
/// (black, red, green, yellow, blue, magenta, cyan, white, then their bright
/// forms), with their RGB values.
pub proof fn lemma_standard_palette_values()
    ensures
        indexed_rgb(0) == (Rgb { r: 0x00, g: 0x00, b: 0x00 }),
        indexed_rgb(1) == (Rgb { r: 0xCD, g: 0x00, b: 0x00 }),
        indexed_rgb(2) == (Rgb { r: 0x00, g: 0xCD, b: 0x00 }),
        indexed_rgb(3) == (Rgb { r: 0xCD, g: 0xCD, b: 0x00 }),
        indexed_rgb(4) == (Rgb { r: 0x00, g: 0x00, b: 0xEE }),
        indexed_rgb(5) == (Rgb { r: 0xCD, g: 0x00, b: 0xCD }),
        indexed_rgb(6) == (Rgb { r: 0x00, g: 0xCD, b: 0xCD }),
        indexed_rgb(7) == (Rgb { r: 0xE5, g: 0xE5, b: 0xE5 }),
        indexed_rgb(8) == (Rgb { r: 0x7F, g: 0x7F, b: 0x7F }),
        indexed_rgb(9) == (Rgb { r: 0xFF, g: 0x00, b: 0x00 }),
        indexed_rgb(10) == (Rgb { r: 0x00, g: 0xFF, b: 0x00 }),
        indexed_rgb(11) == (Rgb { r: 0xFF, g: 0xFF, b: 0x00 }),
        indexed_rgb(12) == (Rgb { r: 0x5C, g: 0x5C, b: 0xFF }),
        indexed_rgb(13) == (Rgb { r: 0xFF, g: 0x00, b: 0xFF }),
        indexed_rgb(14) == (Rgb { r: 0x00, g: 0xFF, b: 0xFF }),
        indexed_rgb(15) == (Rgb { r: 0xFF, g: 0xFF, b: 0xFF }),
{
}

/// The sixteen standard palette colors are pairwise different, and each
/// bright color is at least as light as its normal form in every component.
pub proof fn lemma_standard_palette_distinct(i: u8, j: u8)
    requires
        i < 16,
        j < 16,
    ensures
        i != j ==> indexed_rgb(i) != indexed_rgb(j),
        i < 8 ==> indexed_rgb(i).r <= indexed_rgb((i + 8) as u8).r && indexed_rgb(i).g <= indexed_rgb(
            (i + 8) as u8,
        ).g && indexed_rgb(i).b <= indexed_rgb((i + 8) as u8).b,
{
    lemma_standard_palette_values();
}

/// Every entry of the gray ramp is a gray (equal components) between 8 and 238.
pub proof fn lemma_gray_ramp_is_gray(idx: u8)
    requires
        idx >= 232,
    ensures
        indexed_rgb(idx).r == indexed_rgb(idx).g,
        indexed_rgb(idx).g == indexed_rgb(idx).b,
        8 <= indexed_rgb(idx).r <= 238,
        indexed_rgb(idx).r == (idx - 232) * 10 + 8,
{
}

/// Every component of a color-cube entry is one of the six cube levels.
pub proof fn lemma_cube_levels(idx: u8)
    requires
        16 <= idx < 232,
    ensures
        ({
            let c = indexed_rgb(idx);
            let i = idx - 16;
            &&& c.r == cube_level((i / 36) % 6)
            &&& c.g == cube_level((i / 6) % 6)
            &&& c.b == cube_level(i % 6)
            &&& c.r == 0 || (95 <= c.r <= 255 && (c.r - 95) % 40 == 0)
            &&& c.g == 0 || (95 <= c.g <= 255 && (c.g - 95) % 40 == 0)
            &&& c.b == 0 || (95 <= c.b <= 255 && (c.b - 95) % 40 == 0)
        }),
{
}

/// The six intensities of the color cube, darkest first.
pub open spec fn cube_intensities() -> Seq<u8> {
    seq![0x00u8, 0x5Fu8, 0x87u8, 0xAFu8, 0xD7u8, 0xFFu8]
}

/// Palette entry `16 + 36 * r + 6 * g + b` (each coordinate below six) is the
/// cube color whose red, green and blue take intensity `r`, `g` and `b`.
pub proof fn lemma_cube_coordinates(r: u8, g: u8, b: u8)
    requires
        r < 6,
        g < 6,
        b < 6,
    ensures
        indexed_rgb((16 + 36 * r + 6 * g + b) as u8) == (Rgb {
            r: cube_intensities()[r as int],
            g: cube_intensities()[g as int],
            b: cube_intensities()[b as int],
        }),
{
    let i: int = 36 * r + 6 * g + b;
    assert(i / 36 == r && (i / 6) % 6 == g && i % 6 == b) by (nonlinear_arith)
        requires
            i == 36 * r + 6 * g + b,
            0 <= r < 6,
            0 <= g < 6,
            0 <= b < 6,
    ;
    assert(r % 6 == r);
}

/// Along the gray ramp each step is ten levels lighter than the one before.
pub proof fn lemma_gray_ramp_steps(idx: u8)
    requires
        232 <= idx < 255,
    ensures
        indexed_rgb((idx + 1) as u8).r == indexed_rgb(idx).r + 10,
        indexed_rgb(232) == (Rgb { r: 0x08, g: 0x08, b: 0x08 }),
        indexed_rgb(255) == (Rgb { r: 0xEE, g: 0xEE, b: 0xEE }),
{
}

} // verus!
