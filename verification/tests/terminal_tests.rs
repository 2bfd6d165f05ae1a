use std::borrow::Cow;

use gpui_term::background::{merge_background_regions, BackgroundRegion};
use gpui_term::cell::{cell_style, is_blank, CellFlags, CellLook, CellStyle, GridCell};
use gpui_term::color::{color_rgb, indexed_color_rgb, named_color_rgb, Color, NamedColor, Rgb};
use gpui_term::cursor::{cursor_drawing_for, cursor_on_screen, CursorShape, DisplayCursor, TermCursorShape};
use gpui_term::view::{mouse_down_action, BellState, MouseDownAction, PointerButton, TerminalEvent};
use gpui_term::layout::{layout_grid, LayoutRect};
use gpui_term::text_run::BatchedTextRun;
use gpui_term::{InputOrigin, TerminalMiddleware};

const RED: Rgb = Rgb { r: 255, g: 0, b: 0 };
const BLUE: Rgb = Rgb { r: 0, g: 0, b: 255 };

fn look(fg: Rgb) -> CellLook {
    CellLook { fg, dim: false, bold: false, italic: false, underline: None, strikethrough: false }
}

fn no_flags() -> CellFlags {
    CellFlags {
        inverse: false,
        bold: false,
        italic: false,
        dim: false,
        underline: false,
        double_underline: false,
        undercurl: false,
        dotted_underline: false,
        dashed_underline: false,
        strikeout: false,
        wide_char_spacer: false,
    }
}

fn cell(line: i32, column: i32, c: char, bg: Color) -> GridCell {
    GridCell {
        line,
        column,
        c,
        fg: Color::Named(NamedColor::Foreground),
        bg,
        flags: no_flags(),
        zerowidth: vec![],
    }
}

const DEFAULT_BG: Color = Color::Named(NamedColor::Background);

#[test]
fn test_convert_named_colors_returns_valid_hsla() {
    let colors = [
        (NamedColor::Black, (0x00, 0x00, 0x00)),
        (NamedColor::Red, (0xCD, 0x00, 0x00)),
        (NamedColor::Green, (0x00, 0xCD, 0x00)),
        (NamedColor::Yellow, (0xCD, 0xCD, 0x00)),
        (NamedColor::Blue, (0x00, 0x00, 0xEE)),
        (NamedColor::Magenta, (0xCD, 0x00, 0xCD)),
        (NamedColor::Cyan, (0x00, 0xCD, 0xCD)),
        (NamedColor::White, (0xE5, 0xE5, 0xE5)),
    ];
    for (color, (r, g, b)) in colors {
        let c = named_color_rgb(color);
        assert_eq!(c, Rgb { r, g, b }, "RGB of {:?}", color);
    }
}

#[test]
fn test_indexed_color_standard_colors_map_to_named() {
    let black = indexed_color_rgb(0);
    let named_black = named_color_rgb(NamedColor::Black);
    assert_eq!(black, named_black, "Index 0 should map to black");

    let bright_white = indexed_color_rgb(15);
    let named_bright_white = named_color_rgb(NamedColor::BrightWhite);
    assert_eq!(bright_white, named_bright_white, "Index 15 should map to bright white");
}

#[test]
fn test_indexed_color_cube_colors_produce_valid_hsla() {
    let levels = [0u8, 95, 135, 175, 215, 255];
    for idx in 16..=231u8 {
        let c = indexed_color_rgb(idx);
        assert!(
            levels.contains(&c.r) && levels.contains(&c.g) && levels.contains(&c.b),
            "Indexed color {} should be a cube color",
            idx
        );
    }
}

#[test]
fn test_indexed_color_grayscale_produces_valid_hsla() {
    for idx in 232..=255u8 {
        let c = indexed_color_rgb(idx);
        assert!(c.r == c.g && c.g == c.b, "Grayscale color {} should have zero saturation", idx);
    }
}

#[test]
fn test_convert_spec_color_rgb_values() {
    let rgb = Rgb { r: 255, g: 128, b: 64 };
    let color = Color::Spec(rgb);
    assert_eq!(color_rgb(&color), rgb, "Spec color keeps its components");
}

#[test]
fn test_batched_text_run_can_append_same_style() {
    let style1 = CellStyle { look: look(RED), len: 1 };
    let style2 = CellStyle { look: look(RED), len: 1 };
    let batch = BatchedTextRun::new_from_char(0, 0, 'a', style1);
    assert!(batch.can_append(&style2), "Should be able to append same style");
}

#[test]
fn test_batched_text_run_cannot_append_different_color() {
    let style1 = CellStyle { look: look(RED), len: 1 };
    let style2 = CellStyle { look: look(BLUE), len: 1 };
    let batch = BatchedTextRun::new_from_char(0, 0, 'a', style1);
    assert!(!batch.can_append(&style2), "Should not be able to append different color");
}

#[test]
fn test_batched_text_run_append_increments_cell_count() {
    let style = CellStyle { look: look(RED), len: 1 };
    let mut batch = BatchedTextRun::new_from_char(0, 0, 'a', style);

    assert_eq!(batch.cell_count, 1, "Initial cell count should be 1");
    assert_eq!(batch.text, "a", "Initial text should be 'a'");

    batch.append_char('b');

    assert_eq!(batch.cell_count, 2, "Cell count should increment after append");
    assert_eq!(batch.text, "ab", "Text should be 'ab' after append");
}

#[test]
fn test_background_region_can_merge_horizontal_adjacent() {
    let color = RED;
    let mut region1 = BackgroundRegion::new(0, 0, color);
    region1.end_col = 2;
    let region2 = BackgroundRegion::new(0, 3, color);
    assert!(
        region1.can_merge_with(&region2),
        "Adjacent horizontal regions with same color should merge"
    );
}

#[test]
fn test_background_region_cannot_merge_different_colors() {
    let region1 = BackgroundRegion::new(0, 0, RED);
    let region2 = BackgroundRegion::new(0, 1, BLUE);
    assert!(!region1.can_merge_with(&region2), "Regions with different colors should not merge");
}

#[test]
fn test_display_cursor_calculates_offset_correctly() {
    let display_cursor = DisplayCursor::from(5, 10, 3usize);
    assert_eq!(display_cursor.line(), 8, "Line should be cursor line + display offset");
    assert_eq!(display_cursor.col(), 10, "Column should match cursor column");
}

#[test]
fn zero_width_chars_do_not_count_cells() {
    let style = CellStyle { look: look(RED), len: 1 };
    let mut batch = BatchedTextRun::new_from_char(0, 0, 'e', style);
    batch.append_zero_width_chars(&['\u{301}']);
    batch.append_char('ü');
    assert_eq!(batch.cell_count, 2);
    assert_eq!(batch.text, "e\u{301}ü");
    assert_eq!(batch.style.len, batch.text.len());
}

#[test]
fn palette_examples() {
    assert_eq!(indexed_color_rgb(16), Rgb { r: 0, g: 0, b: 0 });
    assert_eq!(indexed_color_rgb(196), Rgb { r: 255, g: 0, b: 0 });
    assert_eq!(indexed_color_rgb(67), Rgb { r: 95, g: 135, b: 175 });
    assert_eq!(indexed_color_rgb(231), Rgb { r: 255, g: 255, b: 255 });
    assert_eq!(indexed_color_rgb(232), Rgb { r: 8, g: 8, b: 8 });
    assert_eq!(indexed_color_rgb(255), Rgb { r: 238, g: 238, b: 238 });
    for idx in 0..16u8 {
        assert_eq!(color_rgb(&Color::Indexed(idx)), indexed_color_rgb(idx));
    }
    assert_eq!(color_rgb(&Color::Named(NamedColor::DimForeground)), Rgb { r: 0xA8, g: 0xA8, b: 0xA8 });
}

#[test]
fn merge_regions_vertical_and_horizontal() {
    let regions = vec![
        BackgroundRegion::new(0, 0, RED),
        BackgroundRegion::new(0, 1, RED),
        BackgroundRegion::new(1, 0, RED),
        BackgroundRegion::new(1, 1, RED),
        BackgroundRegion::new(3, 5, BLUE),
    ];
    let merged = merge_background_regions(regions);
    assert_eq!(merged.len(), 2);
    assert_eq!(
        merged[0],
        BackgroundRegion { start_line: 0, start_col: 0, end_line: 1, end_col: 1, color: RED }
    );
    assert_eq!(merged[1], BackgroundRegion::new(3, 5, BLUE));
    assert!(merge_background_regions(vec![]).is_empty());
}

#[test]
fn merge_region_is_hull() {
    let mut a = BackgroundRegion { start_line: 2, start_col: 4, end_line: 2, end_col: 6, color: RED };
    let b = BackgroundRegion::new(2, 7, RED);
    assert!(a.can_merge_with(&b) && b.can_merge_with(&a));
    a.merge_with(&b);
    assert_eq!(a, BackgroundRegion { start_line: 2, start_col: 4, end_line: 2, end_col: 7, color: RED });
    let far = BackgroundRegion::new(2, 9, RED);
    assert!(!a.can_merge_with(&far));
}

#[test]
fn blank_cells() {
    assert!(is_blank(&cell(0, 0, ' ', DEFAULT_BG)));
    assert!(!is_blank(&cell(0, 0, 'x', DEFAULT_BG)));
    assert!(!is_blank(&cell(0, 0, ' ', Color::Indexed(1))));
    let mut underlined = cell(0, 0, ' ', DEFAULT_BG);
    underlined.flags.dotted_underline = true;
    assert!(!is_blank(&underlined));
}

#[test]
fn cell_style_from_flags() {
    let mut c = cell(0, 0, 'é', DEFAULT_BG);
    c.flags.bold = true;
    c.flags.undercurl = true;
    c.flags.strikeout = true;
    let s = cell_style(&c, Color::Indexed(9), false);
    assert_eq!(s.len, 2);
    assert_eq!(s.look.fg, Rgb { r: 255, g: 0, b: 0 });
    assert!(s.look.bold);
    assert_eq!(s.look.underline, Some(true));
    assert!(s.look.strikethrough);
    let plain = cell_style(&cell(0, 0, 'a', DEFAULT_BG), Color::Spec(BLUE), true);
    assert!(plain.look.bold);
    assert_eq!(plain.look.underline, None);
}

#[test]
fn layout_batches_runs_and_backgrounds() {
    let red_bg = Color::Spec(RED);
    let mut cells = vec![
        cell(10, 0, 'h', red_bg),
        cell(10, 1, 'i', red_bg),
        cell(10, 2, ' ', DEFAULT_BG),
        cell(10, 3, 'x', DEFAULT_BG),
        cell(11, 0, ' ', red_bg),
        cell(11, 1, ' ', red_bg),
        cell(11, 2, 'y', DEFAULT_BG),
    ];
    cells[3].fg = Color::Indexed(2);
    let (rects, runs) = layout_grid(&cells, false);

    let texts: Vec<&str> = runs.iter().map(|r| r.text.as_str()).collect();
    assert_eq!(texts, vec!["hi", "x", "  y"]);
    assert_eq!(runs[0].start_line, 0);
    assert_eq!(runs[0].start_column, 0);
    assert_eq!(runs[0].cell_count, 2);
    assert_eq!(runs[1].start_column, 3);
    assert_eq!(runs[2].start_line, 1);
    assert_eq!(runs[2].cell_count, 3);
    for r in &runs {
        assert_eq!(r.style.len, r.text.len());
    }

    assert_eq!(
        rects,
        vec![
            LayoutRect { line: 0, column: 0, num_of_cells: 2, color: RED },
            LayoutRect { line: 1, column: 0, num_of_cells: 2, color: RED },
        ]
    );
}

#[test]
fn layout_inverse_wide_and_zero_width() {
    let mut inverse = cell(0, 0, 'a', DEFAULT_BG);
    inverse.fg = Color::Spec(BLUE);
    inverse.flags.inverse = true;
    let mut accented = cell(0, 1, 'e', DEFAULT_BG);
    accented.zerowidth = vec!['\u{301}'];
    let padding = cell(0, 2, ' ', DEFAULT_BG);
    let wide = cell(0, 3, '漢', DEFAULT_BG);
    let mut spacer = cell(0, 4, ' ', DEFAULT_BG);
    spacer.flags.wide_char_spacer = true;
    let after = cell(0, 5, 'z', DEFAULT_BG);
    let cells = vec![inverse, accented, padding, wide, spacer, after];
    let (rects, runs) = layout_grid(&cells, false);

    let texts: Vec<&str> = runs.iter().map(|r| r.text.as_str()).collect();
    assert_eq!(texts, vec!["a", "e\u{301}", "漢", "z"]);
    assert_eq!(rects, vec![LayoutRect { line: 0, column: 0, num_of_cells: 1, color: BLUE }]);
}

#[test]
fn layout_merges_rectangles_across_lines() {
    let bg = Color::Indexed(4);
    let cells = vec![
        cell(0, 0, 'a', bg),
        cell(0, 1, 'b', bg),
        cell(1, 0, 'c', bg),
        cell(1, 1, 'd', bg),
    ];
    let (rects, runs) = layout_grid(&cells, false);
    assert_eq!(runs.len(), 2);
    let blue = Rgb { r: 0x00, g: 0x00, b: 0xEE };
    assert_eq!(
        rects,
        vec![
            LayoutRect { line: 0, column: 0, num_of_cells: 2, color: blue },
            LayoutRect { line: 1, column: 0, num_of_cells: 2, color: blue },
        ]
    );
    let (no_rects, no_runs) = layout_grid(&vec![], false);
    assert!(no_rects.is_empty() && no_runs.is_empty());
}

#[test]
fn cursor_drawing_choices() {
    assert_eq!(cursor_drawing_for(TermCursorShape::Hidden, true), None);
    assert_eq!(cursor_drawing_for(TermCursorShape::Block, true), Some((CursorShape::Block, true)));
    assert_eq!(cursor_drawing_for(TermCursorShape::Block, false), Some((CursorShape::Hollow, false)));
    assert_eq!(cursor_drawing_for(TermCursorShape::Beam, false), Some((CursorShape::Bar, false)));
    assert_eq!(cursor_drawing_for(TermCursorShape::Underline, true), Some((CursorShape::Underline, false)));
    assert_eq!(cursor_drawing_for(TermCursorShape::HollowBlock, true), Some((CursorShape::Hollow, false)));
}

struct PassThrough;
impl TerminalMiddleware for PassThrough {}

struct DropAll;
impl TerminalMiddleware for DropAll {
    fn on_input(&self, _input: Cow<'static, [u8]>, _origin: InputOrigin) -> Option<Cow<'static, [u8]>> {
        None
    }
}

#[test]
fn middleware_default_passes_input() {
    let out = PassThrough.on_input(Cow::Borrowed(b"ls\n"), InputOrigin::Keystroke);
    assert_eq!(out.as_deref(), Some(&b"ls\n"[..]));
    assert!(DropAll.on_input(Cow::Owned(vec![1, 2]), InputOrigin::Paste).is_none());
    assert_ne!(InputOrigin::Text, InputOrigin::Paste);
}

#[test]
fn merge_touching_regions_into_one() {
    let regions = vec![
        BackgroundRegion::new(0, 0, RED),
        BackgroundRegion { start_line: 1, start_col: 0, end_line: 1, end_col: 1, color: RED },
        BackgroundRegion::new(0, 1, RED),
    ];
    let merged = merge_background_regions(regions);
    assert_eq!(
        merged,
        vec![BackgroundRegion { start_line: 0, start_col: 0, end_line: 1, end_col: 1, color: RED }]
    );
}

#[test]
fn merge_keeps_merged_input() {
    let regions = vec![
        BackgroundRegion { start_line: 0, start_col: 0, end_line: 0, end_col: 3, color: RED },
        BackgroundRegion { start_line: 1, start_col: 1, end_line: 2, end_col: 3, color: RED },
        BackgroundRegion::new(0, 4, BLUE),
    ];
    assert_eq!(merge_background_regions(regions.clone()), regions);
}

#[test]
fn layout_without_backgrounds_has_no_rects() {
    let cells = vec![
        cell(0, 0, 'a', DEFAULT_BG),
        cell(0, 1, ' ', DEFAULT_BG),
        cell(0, 2, 'b', DEFAULT_BG),
    ];
    let (rects, runs) = layout_grid(&cells, false);
    assert!(rects.is_empty());
    assert_eq!(runs.len(), 2);
    assert_eq!(runs[0].text, "a");
    assert_eq!(runs[0].cell_count, 1);
    assert_eq!((runs[0].start_line, runs[0].start_column), (0, 0));
    assert_eq!(runs[1].text, "b");
    assert_eq!(runs[1].cell_count, 1);
    assert_eq!((runs[1].start_line, runs[1].start_column), (0, 2));
}

#[test]
fn layout_rects_are_disjoint() {
    let red_bg = Color::Spec(RED);
    let blue_bg = Color::Spec(BLUE);
    let cells = vec![
        cell(0, 0, 'a', red_bg),
        cell(0, 1, 'b', blue_bg),
        cell(0, 2, 'c', red_bg),
        cell(1, 0, 'd', red_bg),
        cell(1, 1, 'e', blue_bg),
    ];
    let (rects, _) = layout_grid(&cells, false);
    for (i, a) in rects.iter().enumerate() {
        assert!(a.num_of_cells >= 1);
        for b in &rects[i + 1..] {
            assert!(
                a.line != b.line
                    || a.column as u64 + a.num_of_cells <= b.column as u64
                    || b.column as u64 + b.num_of_cells <= a.column as u64
            );
        }
    }
    assert_eq!(rects.len(), 5);
}

#[test]
fn bell_indicator() {
    let mut bell = BellState::new();
    assert!(!bell.has_bell());
    bell.handle_terminal_event(&TerminalEvent::Wakeup);
    bell.handle_terminal_event(&TerminalEvent::BlinkChanged(true));
    assert!(!bell.has_bell());
    bell.handle_terminal_event(&TerminalEvent::Bell);
    assert!(bell.has_bell());
    bell.handle_terminal_event(&TerminalEvent::TitleChanged);
    assert!(bell.has_bell());
    bell.clear_bell();
    assert!(!bell.has_bell());
}

#[test]
fn mouse_down_choices() {
    assert_eq!(mouse_down_action(PointerButton::Right, false), MouseDownAction::PasteClipboard);
    assert_eq!(mouse_down_action(PointerButton::Right, true), MouseDownAction::ForwardToTerminal);
    assert_eq!(mouse_down_action(PointerButton::Left, false), MouseDownAction::ForwardToTerminal);
    assert_eq!(mouse_down_action(PointerButton::Middle, false), MouseDownAction::ForwardToTerminal);
}

#[test]
fn cursor_below_grid_is_hidden() {
    let c = DisplayCursor::from(23, 0, 0);
    assert!(cursor_on_screen(&c, 24));
    assert!(!cursor_on_screen(&DisplayCursor::from(20, 0, 4), 24));
    assert!(!cursor_on_screen(&c, 0));
}

#[test]
fn bell_over_a_sequence_of_inputs() {
    let mut bell = BellState::new();
    bell.handle_terminal_event(&TerminalEvent::Bell);
    bell.handle_terminal_event(&TerminalEvent::SelectionsChanged);
    bell.handle_terminal_event(&TerminalEvent::CloseTerminal);
    assert!(bell.has_bell());
    bell.clear_bell();
    bell.handle_terminal_event(&TerminalEvent::Wakeup);
    assert!(!bell.has_bell());
    bell.handle_terminal_event(&TerminalEvent::Bell);
    bell.handle_terminal_event(&TerminalEvent::Bell);
    assert!(bell.has_bell());
}

struct Watching;
impl TerminalMiddleware for Watching {}

#[test]
fn middleware_default_ignores_events() {
    Watching.on_event(&TerminalEvent::Bell);
    Watching.on_event(&TerminalEvent::BlinkChanged(false));
    assert!(Watching.on_input(Cow::Borrowed(b"x"), InputOrigin::Text).is_some());
}
