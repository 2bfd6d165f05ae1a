//! The terminal cursor: where it is shown and how it is drawn.
use vstd::prelude::*;

verus! {

/// A cursor position as shown: the grid line moved by the scroll offset.
#[derive(Clone, Copy, Debug)]
pub struct DisplayCursor {
    line: i32,
    col: usize,
}

impl DisplayCursor {
    /// The shown line.
    pub closed spec fn shown_line(self) -> int {
        self.line as int
    }

    /// The shown column.
    pub closed spec fn shown_col(self) -> int {
        self.col as int
    }

    /// The cursor at grid line `line` and column `column`, with the view
    /// scrolled back by `display_offset` lines (the offset is taken as an
    /// `i32`, as a cast gives it).
    pub fn from(line: i32, column: usize, display_offset: usize) -> (d: DisplayCursor)
        requires
            i32::MIN <= line + (display_offset as i32) <= i32::MAX,
        ensures
            d.shown_line() == line + (display_offset as i32),
            d.shown_col() == column,
    {
        DisplayCursor { line: line + display_offset as i32, col: column }
    }

    pub fn line(&self) -> (l: i32)
        ensures
            l == self.shown_line(),
    {
        self.line
    }

    pub fn col(&self) -> (c: usize)
        ensures
            c == self.shown_col(),
    {
        self.col
    }
}

/// Whether the cursor is on a shown line (a grid of `num_lines` lines, the
/// count taken as an `i32`, as a cast gives it); below it no cursor is drawn.
pub fn cursor_on_screen(cursor: &DisplayCursor, num_lines: usize) -> (b: bool)
    ensures
        b == (cursor.shown_line() < (num_lines as i32)),
{
    cursor.line < num_lines as i32
}

/// The shapes the renderer draws a cursor in.
#[derive(Clone, Copy, Debug, PartialEq, Eq, Structural)]
pub enum CursorShape {
    Block,
    Hollow,
    Bar,
    Underline,
}

/// The cursor shapes a terminal asks for.
#[derive(Clone, Copy, Debug, PartialEq, Eq, Structural)]
pub enum TermCursorShape {
    Block,
    Underline,
    Beam,
    HollowBlock,
    Hidden,
}

/// How a cursor is drawn: `None` when hidden, else the shape and whether
/// the character under it is drawn on top (only for a focused block).
pub open spec fn cursor_drawing(shape: TermCursorShape, focused: bool) -> Option<(CursorShape, bool)> {
    match shape {
        TermCursorShape::Hidden => None,
        TermCursorShape::Block => if focused {
            Some((CursorShape::Block, true))
        } else {
            Some((CursorShape::Hollow, false))
        },
        TermCursorShape::Underline => Some((CursorShape::Underline, false)),
        TermCursorShape::Beam => Some((CursorShape::Bar, false)),
        TermCursorShape::HollowBlock => Some((CursorShape::Hollow, false)),
    }
}

/// Focus only changes a block cursor: every other shape is drawn the same
/// whether the terminal is focused or not; the character is drawn over the
/// cursor only for a focused block; a hidden cursor is never drawn, a beam
/// is a bar, an underline an underline, a hollow block hollow, and an
/// unfocused block hollow.
pub proof fn lemma_cursor_drawing(shape: TermCursorShape, focused: bool)
    ensures
        shape != TermCursorShape::Block ==> cursor_drawing(shape, true) == cursor_drawing(shape, false),
        (cursor_drawing(shape, focused) matches Some((_, over)) && over) <==> (shape
            == TermCursorShape::Block && focused),
        cursor_drawing(shape, focused) is None <==> shape == TermCursorShape::Hidden,
        shape == TermCursorShape::Beam ==> cursor_drawing(shape, focused) == Some((CursorShape::Bar, false)),
        shape == TermCursorShape::Underline ==> cursor_drawing(shape, focused) == Some(
            (CursorShape::Underline, false),
        ),
        shape == TermCursorShape::HollowBlock ==> cursor_drawing(shape, focused) == Some(
            (CursorShape::Hollow, false),
        ),
        shape == TermCursorShape::Block && focused ==> cursor_drawing(shape, focused) == Some(
            (CursorShape::Block, true),
        ),
        shape == TermCursorShape::Block && !focused ==> cursor_drawing(shape, focused) == Some(
            (CursorShape::Hollow, false),
        ),
{
}

/// Chooses how to draw the cursor; an unfocused terminal shows a block
/// cursor hollow.
pub fn cursor_drawing_for(shape: TermCursorShape, focused: bool) -> (r: Option<(CursorShape, bool)>)
    ensures
        r == cursor_drawing(shape, focused),
{
    match shape {
        TermCursorShape::Hidden => None,
        TermCursorShape::Block => if focused {
            Some((CursorShape::Block, true))
        } else {
            Some((CursorShape::Hollow, false))
        },
        TermCursorShape::Underline => Some((CursorShape::Underline, false)),
        TermCursorShape::Beam => Some((CursorShape::Bar, false)),
        TermCursorShape::HollowBlock => Some((CursorShape::Hollow, false)),
    }
}

} // verus!
