//! Grid cells as the renderer reads them, and the text style of a cell.
use vstd::prelude::*;

use crate::color::{color_rgb, color_rgb_spec, Color, NamedColor, Rgb};

verus! {

/// The attributes of a cell that the renderer looks at.
#[derive(Clone, Copy, Debug, PartialEq, Eq, Structural)]
pub struct CellFlags {
    pub inverse: bool,
    pub bold: bool,
    pub italic: bool,
    pub dim: bool,
    pub underline: bool,
    pub double_underline: bool,
    pub undercurl: bool,
    pub dotted_underline: bool,
    pub dashed_underline: bool,
    pub strikeout: bool,
    pub wide_char_spacer: bool,
}

impl CellFlags {
    /// Some kind of underline is set.
    pub open spec fn any_underline(self) -> bool {
        self.underline || self.double_underline || self.undercurl || self.dotted_underline
            || self.dashed_underline
    }
}

/// A cell of the terminal grid, with its position.
#[derive(Debug)]
pub struct GridCell {
    /// The grid line the cell is on.
    pub line: i32,
    /// The column of the cell.
    pub column: i32,
    /// The character shown.
    pub c: char,
    pub fg: Color,
    pub bg: Color,
    pub flags: CellFlags,
    /// Zero-width characters (combining marks) attached to the cell.
    pub zerowidth: Vec<char>,
}

/// How a run of text looks: everything of a text style but its length.
#[derive(Clone, Copy, Debug, PartialEq, Eq, Structural)]
pub struct CellLook {
    /// The foreground color.
    pub fg: Rgb,
    /// The foreground is dimmed.
    pub dim: bool,
    /// The font is bold.
    pub bold: bool,
    pub italic: bool,
    /// `Some(wavy)` when the text is underlined.
    pub underline: Option<bool>,
    pub strikethrough: bool,
}

/// The style of a run of text: its look and its length in UTF-8 bytes.
#[derive(Clone, Copy, Debug, PartialEq, Eq, Structural)]
pub struct CellStyle {
    pub look: CellLook,
    pub len: usize,
}

/// The UTF-8 length of a character.
pub open spec fn char_len(c: char) -> nat {
    if (c as u32) < 0x80 {
        1
    } else if (c as u32) < 0x800 {
        2
    } else if (c as u32) < 0x10000 {
        3
    } else {
        4
    }
}

/// The UTF-8 length of a text.
pub open spec fn utf8_len(text: Seq<char>) -> nat
    decreases text.len(),
{
    if text.len() == 0 {
        0
    } else {
        utf8_len(text.drop_last()) + char_len(text.last())
    }
}

pub proof fn lemma_utf8_len_push(text: Seq<char>, c: char)
    ensures
        utf8_len(text.push(c)) == utf8_len(text) + char_len(c),
{
    assert(text.push(c).drop_last() =~= text);
}

/// The UTF-8 length of a concatenation is the sum of the lengths.
pub proof fn lemma_utf8_len_concat(a: Seq<char>, b: Seq<char>)
    ensures
        utf8_len(a + b) == utf8_len(a) + utf8_len(b),
    decreases b.len(),
{
    if b.len() == 0 {
        assert(a + b =~= a);
    } else {
        lemma_utf8_len_concat(a, b.drop_last());
        assert((a + b).drop_last() =~= a + b.drop_last());
    }
}

/// The UTF-8 length of a character.
pub fn char_utf8_len(c: char) -> (n: usize)
    ensures
        n == char_len(c),
{
    let v = c as u32;
    if v < 0x80 {
        1
    } else if v < 0x800 {
        2
    } else if v < 0x10000 {
        3
    } else {
        4
    }
}

/// The look of a cell drawn with foreground `fg`; `base_bold` says whether
/// the terminal's own font weight is already bold.
pub open spec fn look_of(flags: CellFlags, fg: Color, base_bold: bool) -> CellLook {
    CellLook {
        fg: color_rgb_spec(fg),
        dim: flags.dim,
        bold: flags.bold || base_bold,
        italic: flags.italic,
        underline: if flags.any_underline() { Some(flags.undercurl) } else { None },
        strikethrough: flags.strikeout,
    }
}

/// A cell's look, field by field: its foreground color; dimmed, italic and
/// struck out as its flags say; bold when its flag or the terminal's own
/// weight says so; underlined when any underline flag is set, wavy exactly
/// for an undercurl.
pub proof fn lemma_look_fields(flags: CellFlags, fg: Color, base_bold: bool)
    ensures
        look_of(flags, fg, base_bold).fg == color_rgb_spec(fg),
        look_of(flags, fg, base_bold).dim == flags.dim,
        look_of(flags, fg, base_bold).bold == (flags.bold || base_bold),
        look_of(flags, fg, base_bold).italic == flags.italic,
        look_of(flags, fg, base_bold).strikethrough == flags.strikeout,
        look_of(flags, fg, base_bold).underline is Some <==> (flags.underline || flags.double_underline
            || flags.undercurl || flags.dotted_underline || flags.dashed_underline),
        look_of(flags, fg, base_bold).underline is Some ==> look_of(flags, fg, base_bold).underline
            == Some(flags.undercurl),
{
}

/// The text style of a cell drawn with foreground `fg` (the cell's own
/// foreground, or its background when the cell is inverse).
pub fn cell_style(cell: &GridCell, fg: Color, base_bold: bool) -> (style: CellStyle)
    ensures
        style.look == look_of(cell.flags, fg, base_bold),
        style.len == char_len(cell.c),
        style.look.fg == color_rgb_spec(fg),
        style.look.underline == if cell.flags.underline || cell.flags.double_underline
            || cell.flags.undercurl || cell.flags.dotted_underline || cell.flags.dashed_underline {
            Some(cell.flags.undercurl)
        } else {
            None
        },
        style.look.bold == (cell.flags.bold || base_bold),
        style.look.italic == cell.flags.italic,
        style.look.dim == cell.flags.dim,
        style.look.strikethrough == cell.flags.strikeout,
{
    let flags = cell.flags;
    let any_underline = flags.underline || flags.double_underline || flags.undercurl
        || flags.dotted_underline || flags.dashed_underline;
    let underline = if any_underline {
        Some(flags.undercurl)
    } else {
        None
    };
    CellStyle {
        look: CellLook {
            fg: color_rgb(&fg),
            dim: flags.dim,
            bold: flags.bold || base_bold,
            italic: flags.italic,
            underline,
            strikethrough: flags.strikeout,
        },
        len: char_utf8_len(cell.c),
    }
}

/// A blank cell: a space on the default background with no underline,
/// inversion or strike-out.
pub open spec fn blank(cell: GridCell) -> bool {
    &&& cell.c == ' '
    &&& cell.bg == Color::Named(NamedColor::Background)
    &&& !cell.flags.any_underline()
    &&& !cell.flags.inverse
    &&& !cell.flags.strikeout
}

/// Whether a cell is blank and can be skipped when drawing text.
pub fn is_blank(cell: &GridCell) -> (b: bool)
    ensures
        b == blank(*cell),
{
    if cell.c != ' ' {
        return false;
    }
    if cell.bg != Color::Named(NamedColor::Background) {
        return false;
    }
    let flags = cell.flags;
    if flags.underline || flags.double_underline || flags.undercurl || flags.dotted_underline
        || flags.dashed_underline || flags.inverse || flags.strikeout {
        return false;
    }
    true
}

} // verus!
