//! Laying out the grid: one pass over the cells produces the batched text
//! runs and the background regions, which are then merged and cut into one
//! rectangle per line.
use vstd::prelude::*;

use crate::background::{
    all_wf, apart, covers, fully_merged, merge_background_regions, merge_fixpoint, pairwise_apart,
    BackgroundRegion,
};
use crate::cell::{
    blank, cell_style, char_len, is_blank, lemma_look_fields, look_of, utf8_len, CellLook, GridCell,
};
use crate::color::{color_rgb, color_rgb_spec, Color, NamedColor, Rgb};
use crate::text_run::{BatchedTextRun, RunView};

verus! {

/// A background rectangle of one line: `num_of_cells` cells from `column`.
#[derive(Clone, Copy, Debug, PartialEq, Eq, Structural)]
pub struct LayoutRect {
    pub line: i32,
    pub column: i32,
    pub num_of_cells: u64,
    pub color: Rgb,
}

impl LayoutRect {
    pub fn new(line: i32, column: i32, num_of_cells: u64, color: Rgb) -> (r: LayoutRect)
        ensures
            r == (LayoutRect { line, column, num_of_cells, color }),
    {
        LayoutRect { line, column, num_of_cells, color }
    }

    /// The rectangle paints cell (`line`, `col`) with `color`.
    pub open spec fn paints(self, line: int, col: int, color: Rgb) -> bool {
        &&& self.color == color
        &&& self.line == line
        &&& self.column <= col < self.column + self.num_of_cells
    }
}

/// Some rectangle paints cell (`line`, `col`) with `color`.
pub open spec fn rects_cover(rects: Seq<LayoutRect>, line: int, col: int, color: Rgb) -> bool {
    exists|k: int| 0 <= k < rects.len() && #[trigger] rects[k].paints(line, col, color)
}

/// The rectangles of a region: one per line.
pub open spec fn region_rects(r: BackgroundRegion) -> Seq<LayoutRect> {
    Seq::new(
        (r.end_line - r.start_line + 1) as nat,
        |k: int|
            LayoutRect {
                line: (r.start_line + k) as i32,
                column: r.start_col,
                num_of_cells: (r.end_col - r.start_col + 1) as u64,
                color: r.color,
            },
    )
}

/// The rectangles of all regions, region by region.
pub open spec fn all_rects(regions: Seq<BackgroundRegion>) -> Seq<LayoutRect>
    decreases regions.len(),
{
    if regions.len() == 0 {
        seq![]
    } else {
        all_rects(regions.drop_last()) + region_rects(regions.last())
    }
}

proof fn lemma_region_rects_cover(r: BackgroundRegion, line: int, col: int, color: Rgb)
    requires
        r.wf(),
    ensures
        rects_cover(region_rects(r), line, col, color) == r.paints(line, col, color),
{
    let rs = region_rects(r);
    if r.paints(line, col, color) {
        let k = line - r.start_line;
        assert(rs[k].paints(line, col, color));
    }
    if rects_cover(rs, line, col, color) {
        let k = choose|k: int| 0 <= k < rs.len() && #[trigger] rs[k].paints(line, col, color);
        assert(rs[k].line == r.start_line + k);
    }
}

/// The rectangles of well-formed regions paint exactly what the regions paint.
pub proof fn lemma_all_rects_cover(regions: Seq<BackgroundRegion>, line: int, col: int, color: Rgb)
    requires
        all_wf(regions),
    ensures
        rects_cover(all_rects(regions), line, col, color) == covers(regions, line, col, color),
    decreases regions.len(),
{
    if regions.len() > 0 {
        let init = regions.drop_last();
        let last = regions.last();
        assert(all_wf(init)) by {
            assert forall|k: int| 0 <= k < init.len() implies #[trigger] init[k].wf() by {
                assert(init[k] == regions[k]);
            }
        }
        assert(regions[regions.len() - 1].wf());
        lemma_all_rects_cover(init, line, col, color);
        lemma_region_rects_cover(last, line, col, color);
        let a = all_rects(init);
        let b = region_rects(last);
        let ab = a + b;
        if rects_cover(ab, line, col, color) {
            let k = choose|k: int| 0 <= k < ab.len() && #[trigger] ab[k].paints(line, col, color);
            if k < a.len() {
                assert(a[k].paints(line, col, color));
                let m = choose|m: int| 0 <= m < init.len() && #[trigger] init[m].paints(line, col, color);
                assert(regions[m].paints(line, col, color));
            } else {
                assert(b[k - a.len()].paints(line, col, color));
                assert(regions[regions.len() - 1].paints(line, col, color));
            }
        }
        if covers(regions, line, col, color) {
            let m = choose|m: int| 0 <= m < regions.len() && #[trigger] regions[m].paints(line, col, color);
            if m < init.len() {
                assert(init[m].paints(line, col, color));
                let k = choose|k: int| 0 <= k < a.len() && #[trigger] a[k].paints(line, col, color);
                assert(ab[k].paints(line, col, color));
            } else {
                let k = choose|k: int| 0 <= k < b.len() && #[trigger] b[k].paints(line, col, color);
                assert(ab[a.len() + k].paints(line, col, color));
            }
        }
    }
}

/// Cuts well-formed regions into one rectangle per line.
fn rects_for_regions(regions: &Vec<BackgroundRegion>) -> (rects: Vec<LayoutRect>)
    requires
        all_wf(regions@),
    ensures
        rects@ == all_rects(regions@),
{
    let mut rects: Vec<LayoutRect> = Vec::new();
    let mut idx: usize = 0;
    while idx < regions.len()
        invariant
            idx <= regions.len(),
            all_wf(regions@),
            rects@ == all_rects(regions@.take(idx as int)),
        decreases regions.len() - idx,
    {
        let r = regions[idx];
        assert(regions@[idx as int].wf());
        let width = (r.end_col as i64 - r.start_col as i64 + 1) as u64;
        let ghost before = rects@;
        let mut line: i64 = r.start_line as i64;
        while line <= r.end_line as i64
            invariant
                r.wf(),
                r.start_line <= line <= r.end_line + 1,
                width == r.end_col - r.start_col + 1,
                rects@ == before + region_rects(r).take(line - r.start_line),
            decreases r.end_line + 1 - line,
        {
            rects.push(LayoutRect::new(line as i32, r.start_col, width, r.color));
            line += 1;
            proof {
                assert(rects@ =~= before + region_rects(r).take(line - r.start_line));
            }
        }
        proof {
            assert(region_rects(r).take(line - r.start_line) =~= region_rects(r));
            assert(regions@.take(idx + 1).drop_last() =~= regions@.take(idx as int));
        }
        idx += 1;
    }
    proof {
        assert(regions@.take(idx as int) =~= regions@);
    }
    rects
}

/// The state of the pass over the cells.
pub struct GridScan {
    /// Finished runs.
    pub runs: Seq<RunView>,
    /// The run being grown.
    pub current: Option<RunView>,
    /// Background regions, before merging.
    pub regions: Seq<BackgroundRegion>,
    /// Index of the current group of cells sharing a grid line (-1 before any).
    pub line_index: int,
    /// The grid line of the previous cell.
    pub last_line: Option<i32>,
    /// The previous drawn cell carried zero-width characters.
    pub prev_extras: bool,
}

pub open spec fn scan_start() -> GridScan {
    GridScan {
        runs: seq![],
        current: None,
        regions: seq![],
        line_index: -1,
        last_line: None,
        prev_extras: false,
    }
}

/// The foreground a cell is drawn with (its background when inverse).
pub open spec fn shown_fg(cell: GridCell) -> Color {
    if cell.flags.inverse { cell.bg } else { cell.fg }
}

/// The background a cell is drawn with (its foreground when inverse).
pub open spec fn shown_bg(cell: GridCell) -> Color {
    if cell.flags.inverse { cell.fg } else { cell.bg }
}

/// Adds cell (`line`, `col`) in `color` to the regions: it extends the last
/// region when that region is the cell just left of it in the same color,
/// else it starts a one-cell region.
pub open spec fn add_background(regions: Seq<BackgroundRegion>, line: int, col: i32, color: Rgb) -> Seq<
    BackgroundRegion,
> {
    if regions.len() > 0 && regions.last().color == color && regions.last().start_line == line
        && regions.last().end_line == line && regions.last().end_col + 1 == col {
        regions.update(regions.len() - 1, BackgroundRegion { end_col: col, ..regions.last() })
    } else {
        regions.push(
            BackgroundRegion {
                start_line: line as i32,
                start_col: col,
                end_line: line as i32,
                end_col: col,
                color,
            },
        )
    }
}

/// A run starting with `cell`, on line `line`.
pub open spec fn run_start(line: int, cell: GridCell, look: CellLook) -> RunView {
    RunView {
        start_line: line as i32,
        start_column: cell.column,
        text: seq![cell.c] + cell.zerowidth@,
        cell_count: 1,
        look,
    }
}

/// `run` grown by `cell`.
pub open spec fn run_extend(run: RunView, cell: GridCell) -> RunView {
    RunView { text: run.text.push(cell.c) + cell.zerowidth@, cell_count: run.cell_count + 1, ..run }
}

/// One step of the pass: the state after `cell`.
pub open spec fn scan_cell(s: GridScan, cell: GridCell, base_bold: bool) -> GridScan {
    let new_group = s.last_line != Some(cell.line);
    let line_index = if new_group { s.line_index + 1 } else { s.line_index };
    let runs = if new_group && s.current is Some { s.runs.push(s.current->0) } else { s.runs };
    let current = if new_group { None } else { s.current };
    let prev_extras = if new_group { false } else { s.prev_extras };
    let bg = shown_bg(cell);
    let regions = if bg != Color::Named(NamedColor::Background) {
        add_background(s.regions, line_index, cell.column, color_rgb_spec(bg))
    } else {
        s.regions
    };
    let base = GridScan { runs, current, regions, line_index, last_line: Some(cell.line), prev_extras };
    if cell.flags.wide_char_spacer {
        base
    } else if cell.c == ' ' && prev_extras {
        GridScan { prev_extras: false, ..base }
    } else {
        let extras = cell.zerowidth@.len() > 0;
        if blank(cell) {
            GridScan { prev_extras: extras, ..base }
        } else {
            let look = look_of(cell.flags, shown_fg(cell), base_bold);
            match current {
                Some(run) => if run.look == look && run.start_line == line_index
                    && run.start_column + run.cell_count == cell.column {
                    GridScan { current: Some(run_extend(run, cell)), prev_extras: extras, ..base }
                } else {
                    GridScan {
                        runs: runs.push(run),
                        current: Some(run_start(line_index, cell, look)),
                        prev_extras: extras,
                        ..base
                    }
                },
                None => GridScan {
                    current: Some(run_start(line_index, cell, look)),
                    prev_extras: extras,
                    ..base
                },
            }
        }
    }
}

/// The state after a pass over `cells`.
pub open spec fn scan_cells(cells: Seq<GridCell>, base_bold: bool) -> GridScan
    decreases cells.len(),
{
    if cells.len() == 0 {
        scan_start()
    } else {
        scan_cell(scan_cells(cells.drop_last(), base_bold), cells.last(), base_bold)
    }
}

/// The runs of a finished pass, the run being grown included.
pub open spec fn final_runs(s: GridScan) -> Seq<RunView> {
    match s.current {
        Some(run) => s.runs.push(run),
        None => s.runs,
    }
}

/// The UTF-8 bytes of all characters of the cells.
pub open spec fn cells_bytes(cells: Seq<GridCell>) -> nat
    decreases cells.len(),
{
    if cells.len() == 0 {
        0
    } else {
        cells_bytes(cells.drop_last()) + char_len(cells.last().c) + utf8_len(cells.last().zerowidth@)
    }
}

proof fn lemma_cells_bytes_prefix(cells: Seq<GridCell>, n: int)
    requires
        0 <= n <= cells.len(),
    ensures
        cells_bytes(cells.take(n)) <= cells_bytes(cells),
    decreases cells.len() - n,
{
    if n < cells.len() {
        lemma_cells_bytes_prefix(cells, n + 1);
        assert(cells.take(n + 1).drop_last() =~= cells.take(n));
    } else {
        assert(cells.take(n) =~= cells);
    }
}

pub open spec fn opt_view(run: Option<BatchedTextRun>) -> Option<RunView> {
    match run {
        Some(b) => Some(b@),
        None => None,
    }
}

pub open spec fn runs_view(runs: Seq<BatchedTextRun>) -> Seq<RunView> {
    runs.map_values(|b: BatchedTextRun| b@)
}

pub open spec fn all_runs_wf(runs: Seq<BatchedTextRun>) -> bool {
    forall|k: int| 0 <= k < runs.len() ==> (#[trigger] runs[k]).wf()
}

fn add_background_exec(regions: &mut Vec<BackgroundRegion>, line: i32, col: i32, color: Rgb)
    requires
        all_wf(old(regions)@),
    ensures
        final(regions)@ == add_background(old(regions)@, line as int, col, color),
        all_wf(final(regions)@),
{
    let n = regions.len();
    if n > 0 {
        let last = regions[n - 1];
        if last.color == color && last.start_line == line && last.end_line == line
            && last.end_col as i64 + 1 == col as i64 {
            let grown = BackgroundRegion { end_col: col, ..last };
            regions.set(n - 1, grown);
            proof {
                assert(old(regions)@[n - 1].wf());
                assert forall|k: int| 0 <= k < regions@.len() implies #[trigger] regions@[k].wf() by {
                    if k != n - 1 {
                        assert(regions@[k] == old(regions)@[k]);
                    }
                }
            }
            return;
        }
    }
    regions.push(BackgroundRegion::new(line, col, color));
    proof {
        assert forall|k: int| 0 <= k < regions@.len() implies #[trigger] regions@[k].wf() by {
            if k < n {
                assert(regions@[k] == old(regions)@[k]);
            }
        }
    }
}

/// Lays out the grid: the batched text runs, and the background
/// rectangles (merged, one per line of each merged region).
///
/// The runs are those of `scan_cells`: well formed, holding exactly the
/// drawn text in order, going down the grid, and never two that could have
/// been one; each cell that shows text lies in a run with the cell's look,
/// an inverse cell's text in the cell's background color. The rectangles are the per-line cuts of the pass's regions as
/// the merge passes leave them (`merge_fixpoint`), fully merged;
/// they paint exactly the cells whose shown background is not the default
/// one, each in its background's color; each covers at least one cell;
/// there are none exactly when no cell has such a background; and when no
/// two cells stand at one position, no two rectangles share a cell.
pub fn layout_grid(cells: &Vec<GridCell>, base_bold: bool) -> (r: (Vec<LayoutRect>, Vec<BatchedTextRun>))
    requires
        cells.len() < i32::MAX,
        cells_bytes(cells@) <= usize::MAX,
    ensures
        runs_view(r.1@) == final_runs(scan_cells(cells@, base_bold)),
        runs_text(runs_view(r.1@)) == drawn_text(cells@, base_bold),
        runs_cells(runs_view(r.1@)) == drawn_count(cells@, base_bold),
        runs_maximal(runs_view(r.1@)),
        forall|k: int|
            0 <= k < cells@.len() && #[trigger] shows_text(cells@, k) ==> cell_in_runs(
                runs_view(r.1@),
                cells@,
                k,
                base_bold,
            ),
        all_runs_wf(r.1@),
        forall|line: int, col: int, color: Rgb|
            #[trigger] rects_cover(r.0@, line, col, color) == covers(
                scan_cells(cells@, base_bold).regions,
                line,
                col,
                color,
            ),
        forall|line: int, col: int, color: Rgb|
            #[trigger] rects_cover(r.0@, line, col, color) == paints_background(
                cells@,
                line,
                col,
                color,
            ),
        rects_nonempty(r.0@),
        (r.0@.len() == 0) == !any_background(cells@),
        distinct_positions(cells@) ==> rects_apart(r.0@),
        r.0@ == all_rects(merge_fixpoint(scan_cells(cells@, base_bold).regions)),
        all_wf(merge_fixpoint(scan_cells(cells@, base_bold).regions)),
        fully_merged(merge_fixpoint(scan_cells(cells@, base_bold).regions)),
{
    let mut runs: Vec<BatchedTextRun> = Vec::new();
    let mut regions: Vec<BackgroundRegion> = Vec::new();
    let mut current: Option<BatchedTextRun> = None;
    let mut line_index: i32 = -1;
    let mut last_line: Option<i32> = None;
    let mut prev_extras = false;
    let mut i: usize = 0;
    proof {
        assert(cells@.take(0) =~= Seq::<GridCell>::empty());
        assert(runs_view(runs@) =~= Seq::<RunView>::empty());
    }
    while i < cells.len()
        invariant
            i <= cells.len() < i32::MAX,
            cells_bytes(cells@) <= usize::MAX,
            runs_view(runs@) == scan_cells(cells@.take(i as int), base_bold).runs,
            opt_view(current) == scan_cells(cells@.take(i as int), base_bold).current,
            regions@ == scan_cells(cells@.take(i as int), base_bold).regions,
            line_index as int == scan_cells(cells@.take(i as int), base_bold).line_index,
            last_line == scan_cells(cells@.take(i as int), base_bold).last_line,
            prev_extras == scan_cells(cells@.take(i as int), base_bold).prev_extras,
            i == 0 ==> last_line is None && line_index == -1,
            i > 0 ==> last_line is Some && 0 <= line_index < i,
            all_runs_wf(runs@),
            all_wf(regions@),
            current matches Some(b) ==> b.wf() && b.style.len <= cells_bytes(cells@.take(i as int))
                && b.cell_count <= i,
        decreases cells.len() - i,
    {
        let ghost s0 = scan_cells(cells@.take(i as int), base_bold);
        let cell = &cells[i];
        proof {
            assert(cells@.take(i + 1).drop_last() =~= cells@.take(i as int));
            lemma_cells_bytes_prefix(cells@, i + 1);
            assert(scan_cells(cells@.take(i + 1), base_bold) == scan_cell(s0, *cell, base_bold));
        }
        let ghost bytes_now = cells_bytes(cells@.take(i + 1));
        let new_group = match last_line {
            Some(l) => l != cell.line,
            None => true,
        };
        if new_group {
            line_index = line_index + 1;
            let finished = current;
            current = None;
            if let Some(b) = finished {
                runs.push(b);
                proof {
                    assert(runs_view(runs@) =~= s0.runs.push(s0.current->0));
                }
            }
            prev_extras = false;
        }
        last_line = Some(cell.line);
        let ghost runs_base = runs_view(runs@);
        let ghost current_base = opt_view(current);
        let inverse = cell.flags.inverse;
        let fg = if inverse { cell.bg } else { cell.fg };
        let bg = if inverse { cell.fg } else { cell.bg };
        if bg != Color::Named(NamedColor::Background) {
            let color = color_rgb(&bg);
            add_background_exec(&mut regions, line_index, cell.column, color);
        }
        if cell.flags.wide_char_spacer {
        } else if cell.c == ' ' && prev_extras {
            prev_extras = false;
        } else {
            prev_extras = cell.zerowidth.len() > 0;
            if !is_blank(cell) {
                let style = cell_style(cell, fg, base_bold);
                let grown = current;
                match grown {
                    Some(mut b) => {
                        if b.can_append(&style) && b.start_line == line_index && b.start_column as i64
                            + b.cell_count as i64 == cell.column as i64 {
                            b.append_char(cell.c);
                            b.append_zero_width_chars(cell.zerowidth.as_slice());
                            current = Some(b);
                        } else {
                            runs.push(b);
                            proof {
                                assert(runs_view(runs@) =~= runs_base.push(current_base->0));
                            }
                            let mut fresh = BatchedTextRun::new_from_char(
                                line_index,
                                cell.column,
                                cell.c,
                                style,
                            );
                            fresh.append_zero_width_chars(cell.zerowidth.as_slice());
                            current = Some(fresh);
                        }
                    },
                    None => {
                        let mut fresh = BatchedTextRun::new_from_char(
                            line_index,
                            cell.column,
                            cell.c,
                            style,
                        );
                        fresh.append_zero_width_chars(cell.zerowidth.as_slice());
                        current = Some(fresh);
                    },
                }
            }
        }
        i += 1;
        proof {
            let s1 = scan_cells(cells@.take(i as int), base_bold);
            assert(regions@ == s1.regions);
            assert(runs_view(runs@) == s1.runs);
            assert(opt_view(current) == s1.current);
        }
    }
    proof {
        assert(cells@.take(i as int) =~= cells@);
    }
    let ghost s = scan_cells(cells@, base_bold);
    if let Some(b) = current {
        runs.push(b);
        proof {
            assert(runs_view(runs@) =~= s.runs.push(s.current->0));
        }
    }
    let merged = merge_background_regions(regions);
    let rects = rects_for_regions(&merged);
    proof {
        lemma_runs_hold_drawn_text(cells@, base_bold);
        lemma_runs_maximal(cells@, base_bold);
        lemma_drawn_cells_in_runs(cells@, base_bold);
        assert forall|line: int, col: int, color: Rgb|
            #[trigger] rects_cover(rects@, line, col, color) == covers(s.regions, line, col, color) by {
            lemma_all_rects_cover(merged@, line, col, color);
        }
        assert forall|line: int, col: int, color: Rgb|
            #[trigger] rects_cover(rects@, line, col, color) == paints_background(
                cells@,
                line,
                col,
                color,
            ) by {
            lemma_background_painted(cells@, base_bold, line, col, color);
        }
        lemma_background_painted(cells@, base_bold, 0, 0, Rgb { r: 0, g: 0, b: 0 });
        lemma_all_rects_nonempty(merged@);
        if distinct_positions(cells@) {
            lemma_scan_regions_apart(cells@, base_bold);
            lemma_all_rects_apart(merged@);
        }
        if rects@.len() > 0 {
            let x = rects@[0];
            assert(x.paints(x.line as int, x.column as int, x.color));
            assert(rects_cover(rects@, x.line as int, x.column as int, x.color));
            let k = choose|k: int| 0 <= k < cells@.len() && #[trigger] cell_paints(cells@, k, x.line as int, x.column as int, x.color);
            assert(shown_bg(cells@[k]) != Color::Named(NamedColor::Background));
        }
        if any_background(cells@) {
            let k = choose|k: int| 0 <= k < cells@.len() && shown_bg(#[trigger] cells@[k]) != Color::Named(NamedColor::Background);
            let line = group_of(cells@, k);
            let col = cells@[k].column as int;
            let color = color_rgb_spec(shown_bg(cells@[k]));
            assert(cell_paints(cells@, k, line, col, color));
            assert(rects_cover(rects@, line, col, color));
        }
        assert(merged@ == merged@ && rects@ == all_rects(merged@));
    }
    (rects, runs)
}

/// The line group of cell `k`: how many times the grid line changes from
/// one cell to the next up to cell `k`.
pub open spec fn group_of(cells: Seq<GridCell>, k: int) -> int
    decreases k,
{
    if k <= 0 {
        0
    } else {
        group_of(cells, k - 1) + if cells[k].line != cells[k - 1].line { 1int } else { 0int }
    }
}

/// Cell `k` is drawn on a non-default background: at its column, on its line
/// group, in the color of its shown background (its foreground when inverse).
pub open spec fn cell_paints(cells: Seq<GridCell>, k: int, line: int, col: int, color: Rgb) -> bool {
    let bg = if cells[k].flags.inverse { cells[k].fg } else { cells[k].bg };
    &&& bg != Color::Named(NamedColor::Background)
    &&& color_rgb_spec(bg) == color
    &&& cells[k].column == col
    &&& group_of(cells, k) == line
}

/// Some cell is drawn on a non-default background at (`line`, `col`) in `color`.
pub open spec fn paints_background(cells: Seq<GridCell>, line: int, col: int, color: Rgb) -> bool {
    exists|k: int| 0 <= k < cells.len() && #[trigger] cell_paints(cells, k, line, col, color)
}

proof fn lemma_group_of_prefix(cells: Seq<GridCell>, n: int, k: int)
    requires
        0 <= k < n <= cells.len(),
    ensures
        group_of(cells.take(n), k) == group_of(cells, k),
    decreases k,
{
    if k > 0 {
        lemma_group_of_prefix(cells, n, k - 1);
    }
}

/// The pass numbers line groups from 0 in order of appearance, and remembers
/// the grid line of the last cell.
pub proof fn lemma_scan_line_index(cells: Seq<GridCell>, base_bold: bool)
    ensures
        cells.len() == 0 ==> scan_cells(cells, base_bold).line_index == -1 && scan_cells(
            cells,
            base_bold,
        ).last_line is None,
        cells.len() > 0 ==> scan_cells(cells, base_bold).line_index == group_of(
            cells,
            cells.len() - 1,
        ) && scan_cells(cells, base_bold).last_line == Some(cells.last().line),
    decreases cells.len(),
{
    if cells.len() > 0 {
        let init = cells.drop_last();
        lemma_scan_line_index(init, base_bold);
        if init.len() > 0 {
            lemma_group_of_prefix(cells, cells.len() - 1, init.len() - 1);
            assert(init =~= cells.take(cells.len() - 1));
        }
    }
}

proof fn lemma_add_background_covers(
    regions: Seq<BackgroundRegion>,
    line: int,
    col: i32,
    color: Rgb,
    l: int,
    c: int,
    k: Rgb,
)
    requires
        all_wf(regions),
        0 <= line <= i32::MAX,
    ensures
        all_wf(add_background(regions, line, col, color)),
        covers(add_background(regions, line, col, color), l, c, k) == (covers(regions, l, c, k) || (
        l == line && c == col && k == color)),
{
    let t = add_background(regions, line, col, color);
    let n = regions.len() as int;
    if n > 0 && regions.last().color == color && regions.last().start_line == line
        && regions.last().end_line == line && regions.last().end_col + 1 == col {
        assert(regions[n - 1].wf());
        assert forall|m: int| 0 <= m < t.len() implies #[trigger] t[m].wf() by {
            if m < n - 1 {
                assert(t[m] == regions[m]);
            }
        }
        if covers(t, l, c, k) {
            let m = choose|m: int| 0 <= m < t.len() && #[trigger] t[m].paints(l, c, k);
            if m < n - 1 {
                assert(regions[m].paints(l, c, k));
            } else if c < col {
                assert(regions[n - 1].paints(l, c, k));
            }
        }
        if covers(regions, l, c, k) {
            let m = choose|m: int| 0 <= m < regions.len() && #[trigger] regions[m].paints(l, c, k);
            assert(t[m].paints(l, c, k));
        }
        if l == line && c == col && k == color {
            assert(t[n - 1].paints(l, c, k));
        }
    } else {
        assert forall|m: int| 0 <= m < t.len() implies #[trigger] t[m].wf() by {
            if m < n {
                assert(t[m] == regions[m]);
            }
        }
        if covers(t, l, c, k) {
            let m = choose|m: int| 0 <= m < t.len() && #[trigger] t[m].paints(l, c, k);
            if m < n {
                assert(regions[m].paints(l, c, k));
            }
        }
        if covers(regions, l, c, k) {
            let m = choose|m: int| 0 <= m < regions.len() && #[trigger] regions[m].paints(l, c, k);
            assert(t[m].paints(l, c, k));
        }
        if l == line && c == col && k == color {
            assert(t[n].paints(l, c, k));
        }
    }
}

/// The background regions of the pass paint exactly the cells whose shown
/// background is not the default one, each in the color of its background,
/// at its column, on its line group; they are well formed.
pub proof fn lemma_background_painted(
    cells: Seq<GridCell>,
    base_bold: bool,
    line: int,
    col: int,
    color: Rgb,
)
    requires
        cells.len() <= i32::MAX,
    ensures
        all_wf(scan_cells(cells, base_bold).regions),
        covers(scan_cells(cells, base_bold).regions, line, col, color) == paints_background(
            cells,
            line,
            col,
            color,
        ),
    decreases cells.len(),
{
    if cells.len() == 0 {
        assert(all_wf(scan_cells(cells, base_bold).regions));
    } else {
        let n = cells.len() - 1;
        let init = cells.drop_last();
        let cell = cells.last();
        lemma_background_painted(init, base_bold, line, col, color);
        lemma_scan_line_index(cells, base_bold);
        lemma_scan_line_index(init, base_bold);
        let s0 = scan_cells(init, base_bold);
        assert(init =~= cells.take(n));
        assert forall|k: int| 0 <= k < n implies #[trigger] cell_paints(init, k, line, col, color)
            == cell_paints(cells, k, line, col, color) by {
            lemma_group_of_prefix(cells, n, k);
        }
        let li = scan_cells(cells, base_bold).line_index;
        assert(li == group_of(cells, n));
        assert(0 <= group_of(cells, n) <= n) by {
            lemma_group_of_bounds(cells, n);
        }
        let bg = shown_bg(cell);
        if bg != Color::Named(NamedColor::Background) {
            lemma_add_background_covers(s0.regions, li, cell.column, color_rgb_spec(bg), line, col, color);
        }
        if paints_background(cells, line, col, color) {
            let k = choose|k: int| 0 <= k < cells.len() && #[trigger] cell_paints(cells, k, line, col, color);
            if k < n {
                assert(cell_paints(init, k, line, col, color));
            }
        }
        if paints_background(init, line, col, color) {
            let k = choose|k: int| 0 <= k < init.len() && #[trigger] cell_paints(init, k, line, col, color);
            assert(cell_paints(cells, k, line, col, color));
        }
        if bg != Color::Named(NamedColor::Background) && line == li && col == cell.column
            && color == color_rgb_spec(bg) {
            assert(cell_paints(cells, n, line, col, color));
        }
    }
}

proof fn lemma_group_of_bounds(cells: Seq<GridCell>, k: int)
    requires
        0 <= k,
    ensures
        0 <= group_of(cells, k) <= k,
    decreases k,
{
    if k > 0 {
        lemma_group_of_bounds(cells, k - 1);
    }
}

/// The cell before cell `k` on the same grid line was drawn with
/// zero-width characters (so a space at `k` is their padding).
pub open spec fn extras_before(cells: Seq<GridCell>, k: int, base_bold: bool) -> bool {
    let s = scan_cells(cells.take(k), base_bold);
    s.last_line == Some(cells[k].line) && s.prev_extras
}

/// Cell `k` is drawn as text: it is not the spacer of a wide character, not
/// the padding space after zero-width characters, and not blank.
pub open spec fn drawn(cells: Seq<GridCell>, k: int, base_bold: bool) -> bool {
    &&& !cells[k].flags.wide_char_spacer
    &&& !(cells[k].c == ' ' && extras_before(cells, k, base_bold))
    &&& !blank(cells[k])
}

/// The characters of the drawn cells, each followed by its zero-width
/// characters, in grid order.
pub open spec fn drawn_text(cells: Seq<GridCell>, base_bold: bool) -> Seq<char>
    decreases cells.len(),
{
    if cells.len() == 0 {
        seq![]
    } else {
        drawn_text(cells.drop_last(), base_bold) + if drawn(cells, cells.len() - 1, base_bold) {
            seq![cells.last().c] + cells.last().zerowidth@
        } else {
            seq![]
        }
    }
}

/// The number of drawn cells.
pub open spec fn drawn_count(cells: Seq<GridCell>, base_bold: bool) -> nat
    decreases cells.len(),
{
    if cells.len() == 0 {
        0
    } else {
        drawn_count(cells.drop_last(), base_bold) + if drawn(cells, cells.len() - 1, base_bold) {
            1nat
        } else {
            0nat
        }
    }
}

/// The texts of the runs, one after the other.
pub open spec fn runs_text(runs: Seq<RunView>) -> Seq<char>
    decreases runs.len(),
{
    if runs.len() == 0 {
        seq![]
    } else {
        runs_text(runs.drop_last()) + runs.last().text
    }
}

/// The cells the runs cover, counted together.
pub open spec fn runs_cells(runs: Seq<RunView>) -> nat
    decreases runs.len(),
{
    if runs.len() == 0 {
        0
    } else {
        runs_cells(runs.drop_last()) + runs.last().cell_count
    }
}

proof fn lemma_runs_push(runs: Seq<RunView>, run: RunView)
    ensures
        runs_text(runs.push(run)) == runs_text(runs) + run.text,
        runs_cells(runs.push(run)) == runs_cells(runs) + run.cell_count,
{
    assert(runs.push(run).drop_last() =~= runs);
}

/// No drawn character is lost, duplicated or reordered: the runs' texts,
/// one after the other, are the drawn cells' characters with their
/// zero-width characters, in grid order, and the runs cover as many cells
/// as are drawn.
pub proof fn lemma_runs_hold_drawn_text(cells: Seq<GridCell>, base_bold: bool)
    ensures
        runs_text(final_runs(scan_cells(cells, base_bold))) == drawn_text(cells, base_bold),
        runs_cells(final_runs(scan_cells(cells, base_bold))) == drawn_count(cells, base_bold),
    decreases cells.len(),
{
    if cells.len() > 0 {
        let n = cells.len() - 1;
        let init = cells.drop_last();
        let cell = cells.last();
        lemma_runs_hold_drawn_text(init, base_bold);
        assert(init =~= cells.take(n));
        let s0 = scan_cells(init, base_bold);
        let s1 = scan_cells(cells, base_bold);
        let new_group = s0.last_line != Some(cell.line);
        let runs0 = if new_group && s0.current is Some { s0.runs.push(s0.current->0) } else { s0.runs };
        let current0 = if new_group { None } else { s0.current };
        let f0 = match current0 {
            Some(r) => runs0.push(r),
            None => runs0,
        };
        assert(f0 == final_runs(s0));
        let piece = seq![cell.c] + cell.zerowidth@;
        if drawn(cells, n, base_bold) {
            let look = look_of(cell.flags, shown_fg(cell), base_bold);
            match current0 {
                Some(run) => {
                    lemma_runs_push(runs0, run);
                    if run.look == look && run.start_line == s1.line_index && run.start_column
                        + run.cell_count == cell.column {
                        let ext = run_extend(run, cell);
                        lemma_runs_push(runs0, ext);
                        assert(ext.text =~= run.text + piece);
                        assert(final_runs(s1) == runs0.push(ext));
                    } else {
                        let st = run_start(s1.line_index, cell, look);
                        lemma_runs_push(runs0.push(run), st);
                        assert(final_runs(s1) == runs0.push(run).push(st));
                    }
                },
                None => {
                    let st = run_start(s1.line_index, cell, look);
                    lemma_runs_push(runs0, st);
                    assert(final_runs(s1) == runs0.push(st));
                },
            }
            assert(runs_text(final_runs(s1)) =~= runs_text(f0) + piece);
        } else {
            assert(final_runs(s1) == f0);
            assert(drawn_text(cells, base_bold) =~= drawn_text(init, base_bold));
        }
    }
}

/// No two cells stand at the same grid line and column.
pub open spec fn distinct_positions(cells: Seq<GridCell>) -> bool {
    forall|i: int, j: int|
        0 <= i < j < cells.len() ==> !((#[trigger] cells[i]).line == (#[trigger] cells[j]).line
            && cells[i].column == cells[j].column)
}

/// Some cell is drawn on a background other than the default one.
pub open spec fn any_background(cells: Seq<GridCell>) -> bool {
    exists|k: int|
        0 <= k < cells.len() && (if (#[trigger] cells[k]).flags.inverse {
            cells[k].fg
        } else {
            cells[k].bg
        }) != Color::Named(NamedColor::Background)
}

/// The two rectangles share no cell.
pub open spec fn rect_apart(a: LayoutRect, b: LayoutRect) -> bool {
    a.line != b.line || a.column + a.num_of_cells <= b.column || b.column + b.num_of_cells <= a.column
}

/// No two rectangles of the sequence share a cell.
pub open spec fn rects_apart(rects: Seq<LayoutRect>) -> bool {
    forall|p: int, q: int| 0 <= p < q < rects.len() ==> rect_apart(#[trigger] rects[p], #[trigger] rects[q])
}

/// Every rectangle covers at least one cell.
pub open spec fn rects_nonempty(rects: Seq<LayoutRect>) -> bool {
    forall|k: int| 0 <= k < rects.len() ==> (#[trigger] rects[k]).num_of_cells >= 1
}

proof fn lemma_all_wf_init(regions: Seq<BackgroundRegion>)
    requires
        all_wf(regions),
        regions.len() > 0,
    ensures
        all_wf(regions.drop_last()),
        regions.last().wf(),
{
    assert(regions[regions.len() - 1].wf());
    assert forall|k: int| 0 <= k < regions.drop_last().len() implies #[trigger] regions.drop_last()[k].wf() by {
        assert(regions.drop_last()[k] == regions[k]);
    }
}

/// The rectangles of well-formed regions each cover at least one cell.
pub proof fn lemma_all_rects_nonempty(regions: Seq<BackgroundRegion>)
    requires
        all_wf(regions),
    ensures
        rects_nonempty(all_rects(regions)),
    decreases regions.len(),
{
    if regions.len() > 0 {
        lemma_all_wf_init(regions);
        lemma_all_rects_nonempty(regions.drop_last());
        let a = all_rects(regions.drop_last());
        let b = region_rects(regions.last());
        assert forall|k: int| 0 <= k < (a + b).len() implies (#[trigger] (a + b)[k]).num_of_cells >= 1 by {
            if k < a.len() {
                assert((a + b)[k] == a[k]);
            } else {
                assert((a + b)[k] == b[k - a.len()]);
            }
        }
    }
}

/// The rectangles of well-formed regions that share no cell share no cell.
pub proof fn lemma_all_rects_apart(regions: Seq<BackgroundRegion>)
    requires
        all_wf(regions),
        pairwise_apart(regions),
    ensures
        rects_apart(all_rects(regions)),
    decreases regions.len(),
{
    if regions.len() > 0 {
        let init = regions.drop_last();
        let last = regions.last();
        let n = regions.len() - 1;
        lemma_all_wf_init(regions);
        assert(pairwise_apart(init)) by {
            assert forall|p: int, q: int| 0 <= p < q < init.len() implies apart(#[trigger] init[p], #[trigger] init[q]) by {
                assert(init[p] == regions[p] && init[q] == regions[q]);
            }
        }
        lemma_all_rects_apart(init);
        lemma_all_rects_nonempty(init);
        let a = all_rects(init);
        let b = region_rects(last);
        let ab = a + b;
        assert forall|p: int, q: int| 0 <= p < q < ab.len() implies rect_apart(#[trigger] ab[p], #[trigger] ab[q]) by {
            if q < a.len() {
                assert(ab[p] == a[p] && ab[q] == a[q]);
            } else if p >= a.len() {
                assert(ab[p] == b[p - a.len()] && ab[q] == b[q - a.len()]);
            } else {
                let x = a[p];
                let y = b[q - a.len()];
                assert(ab[p] == x && ab[q] == y);
                if !rect_apart(x, y) {
                    let c = if x.column >= y.column { x.column as int } else { y.column as int };
                    assert(x.num_of_cells >= 1);
                    assert(x.paints(x.line as int, c, x.color));
                    assert(rects_cover(a, x.line as int, c, x.color));
                    lemma_all_rects_cover(init, x.line as int, c, x.color);
                    let m = choose|m: int| 0 <= m < init.len() && #[trigger] init[m].paints(x.line as int, c, x.color);
                    assert(init[m] == regions[m]);
                    assert(apart(regions[m], regions[n]));
                    assert(y.line == last.start_line + (q - a.len()));
                    assert(false);
                }
            }
        }
    }
}

proof fn lemma_group_of_monotone(cells: Seq<GridCell>, k: int, m: int)
    requires
        0 <= k <= m,
    ensures
        group_of(cells, k) <= group_of(cells, m),
    decreases m - k,
{
    if k < m {
        lemma_group_of_monotone(cells, k, m - 1);
    }
}

/// Cells of one line group stand on one grid line.
proof fn lemma_same_group_same_line(cells: Seq<GridCell>, k: int, n: int)
    requires
        0 <= k <= n < cells.len(),
        group_of(cells, k) == group_of(cells, n),
    ensures
        cells[k].line == cells[n].line,
    decreases n - k,
{
    if k < n {
        lemma_group_of_monotone(cells, k, n - 1);
        lemma_same_group_same_line(cells, k, n - 1);
    }
}

/// A region holds cell (`line`, `col`), whatever its color.
pub open spec fn holds(r: BackgroundRegion, line: int, col: int) -> bool {
    r.start_line <= line <= r.end_line && r.start_col <= col <= r.end_col
}

/// When no two cells stand at one position, the regions of the pass share
/// no cell.
pub proof fn lemma_scan_regions_apart(cells: Seq<GridCell>, base_bold: bool)
    requires
        cells.len() <= i32::MAX,
        distinct_positions(cells),
    ensures
        pairwise_apart(scan_cells(cells, base_bold).regions),
    decreases cells.len(),
{
    if cells.len() > 0 {
        let n = cells.len() - 1;
        let init = cells.drop_last();
        let cell = cells.last();
        assert(distinct_positions(init)) by {
            assert forall|i: int, j: int| 0 <= i < j < init.len() implies !((#[trigger] init[i]).line == (
            #[trigger] init[j]).line && init[i].column == init[j].column) by {
                assert(init[i] == cells[i] && init[j] == cells[j]);
            }
        }
        lemma_scan_regions_apart(init, base_bold);
        lemma_scan_line_index(cells, base_bold);
        lemma_group_of_bounds(cells, n);
        let s0 = scan_cells(init, base_bold);
        let rs = s0.regions;
        let li = group_of(cells, n);
        lemma_background_painted(init, base_bold, 0, 0, Rgb { r: 0, g: 0, b: 0 });
        let bg = shown_bg(cell);
        if bg != Color::Named(NamedColor::Background) {
            // no earlier region holds the new cell's position
            assert forall|m: int| 0 <= m < rs.len() implies !holds(#[trigger] rs[m], li, cell.column as int) by {
                if holds(rs[m], li, cell.column as int) {
                    let col = rs[m].color;
                    assert(rs[m].paints(li, cell.column as int, col));
                    lemma_background_painted(init, base_bold, li, cell.column as int, col);
                    let k = choose|k: int| 0 <= k < init.len() && #[trigger] cell_paints(init, k, li, cell.column as int, col);
                    lemma_group_of_prefix(cells, n, k);
                    assert(init =~= cells.take(n));
                    lemma_same_group_same_line(cells, k, n);
                    assert(cells[k] == init[k]);
                    assert(!(cells[k].line == cells[n].line && cells[k].column == cells[n].column));
                }
            }
            let t = add_background(rs, li, cell.column, color_rgb_spec(bg));
            let len = rs.len() as int;
            assert forall|p: int, q: int| 0 <= p < q < t.len() implies apart(#[trigger] t[p], #[trigger] t[q]) by {
                assert(rs[p].wf());
                if q < len && !(len > 0 && q == len - 1 && t[q] != rs[q]) {
                    assert(t[p] == rs[p]);
                    assert(t[q] == rs[q]);
                } else if q == len {
                    assert(t[p] == rs[p]);
                    assert(!holds(rs[p], li, cell.column as int));
                } else {
                    assert(t[p] == rs[p]);
                    assert(apart(rs[p], rs[q]));
                    assert(!holds(rs[p], li, cell.column as int));
                }
            }
        }
    }
}

/// Run `b` follows run `a` properly: not on an earlier line, and if it
/// starts on the same line right where `a` ends, it looks different (else
/// it would have been part of `a`).
pub open spec fn follows(a: RunView, b: RunView) -> bool {
    &&& a.start_line <= b.start_line
    &&& (a.start_line == b.start_line && a.start_column + a.cell_count == b.start_column ==> a.look
        != b.look)
}

/// Each run follows the one before it: runs go down the grid line by line,
/// and no two neighbouring runs could have been one.
pub open spec fn runs_maximal(runs: Seq<RunView>) -> bool {
    forall|k: int| 0 <= k < runs.len() - 1 ==> follows(#[trigger] runs[k], runs[k + 1])
}

proof fn lemma_runs_maximal_push(runs: Seq<RunView>, run: RunView)
    requires
        runs_maximal(runs),
        runs.len() > 0 ==> follows(runs.last(), run),
    ensures
        runs_maximal(runs.push(run)),
{
    let t = runs.push(run);
    assert forall|k: int| 0 <= k < t.len() - 1 implies follows(#[trigger] t[k], t[k + 1]) by {
        if k + 1 < runs.len() {
            assert(t[k] == runs[k] && t[k + 1] == runs[k + 1]);
        } else {
            assert(t[k] == runs.last());
        }
    }
}

/// What the pass keeps true of its runs.
pub open spec fn scan_runs_ordered(s: GridScan) -> bool {
    &&& runs_maximal(final_runs(s))
    &&& s.current matches Some(c) ==> c.start_line == s.line_index
    &&& forall|k: int| 0 <= k < s.runs.len() ==> (#[trigger] s.runs[k]).start_line <= s.line_index
    &&& s.current is None ==> forall|k: int| 0 <= k < s.runs.len() ==> (#[trigger] s.runs[k]).start_line
        < s.line_index
}

/// The runs of the pass go down the grid line by line, and no two
/// neighbouring runs on one line could have been one run: where the pass
/// ends a run and starts the next at the adjacent column, their looks differ.
pub proof fn lemma_runs_maximal(cells: Seq<GridCell>, base_bold: bool)
    requires
        cells.len() <= i32::MAX,
    ensures
        scan_runs_ordered(scan_cells(cells, base_bold)),
        runs_maximal(final_runs(scan_cells(cells, base_bold))),
    decreases cells.len(),
{
    if cells.len() > 0 {
        let n = cells.len() - 1;
        let init = cells.drop_last();
        let cell = cells.last();
        lemma_runs_maximal(init, base_bold);
        lemma_scan_line_index(cells, base_bold);
        lemma_scan_line_index(init, base_bold);
        lemma_group_of_bounds(cells, n);
        let s0 = scan_cells(init, base_bold);
        let s1 = scan_cells(cells, base_bold);
        let li = s1.line_index;
        assert(0 <= li <= n);
        let new_group = s0.last_line != Some(cell.line);
        let runs0 = if new_group && s0.current is Some { s0.runs.push(s0.current->0) } else { s0.runs };
        let current0 = if new_group { None } else { s0.current };
        if new_group && s0.current is Some {
            assert forall|k: int| 0 <= k < runs0.len() implies (#[trigger] runs0[k]).start_line < li by {
                if k < s0.runs.len() {
                    assert(runs0[k] == s0.runs[k]);
                }
            }
        }
        if new_group && s0.current is None {
            assert(runs0 == s0.runs);
        }
        assert(final_runs(s0) == match current0 {
            Some(r) => runs0.push(r),
            None => runs0,
        });
        assert(current0 is None ==> forall|k: int| 0 <= k < runs0.len() ==> (#[trigger] runs0[k]).start_line < li);
        assert(forall|k: int| 0 <= k < runs0.len() ==> (#[trigger] runs0[k]).start_line <= li);
        if drawn(cells, n, base_bold) {
            assert(init =~= cells.take(n));
            let look = look_of(cell.flags, shown_fg(cell), base_bold);
            match current0 {
                Some(run) => {
                    if run.look == look && run.start_line == li && run.start_column + run.cell_count
                        == cell.column {
                        let ext = run_extend(run, cell);
                        if runs0.len() > 0 {
                            assert(runs_maximal(runs0.push(run)));
                            assert(runs0.push(run)[runs0.len() - 1] == runs0.last());
                            assert(follows(runs0.last(), run));
                        }
                        assert(runs_maximal(runs0)) by {
                            assert forall|k: int| 0 <= k < runs0.len() - 1 implies follows(#[trigger] runs0[k], runs0[k + 1]) by {
                                assert(runs0.push(run)[k] == runs0[k]);
                                assert(runs0.push(run)[k + 1] == runs0[k + 1]);
                            }
                        }
                        lemma_runs_maximal_push(runs0, ext);
                        assert(final_runs(s1) == runs0.push(ext));
                    } else {
                        let st = run_start(li, cell, look);
                        assert(runs0.push(run).last() == run);
                        lemma_runs_maximal_push(runs0.push(run), st);
                        assert(final_runs(s1) == runs0.push(run).push(st));
                        assert forall|k: int| 0 <= k < s1.runs.len() implies (#[trigger] s1.runs[k]).start_line <= s1.line_index by {
                            if k < runs0.len() {
                                assert(s1.runs[k] == runs0[k]);
                            }
                        }
                    }
                },
                None => {
                    let st = run_start(li, cell, look);
                    if runs0.len() > 0 {
                        assert(runs0.last() == runs0[runs0.len() - 1]);
                    }
                    lemma_runs_maximal_push(runs0, st);
                    assert(final_runs(s1) == runs0.push(st));
                },
            }
        } else {
            assert(init =~= cells.take(n));
            assert(final_runs(s1) == final_runs(s0));
        }
    }
}

/// Along one grid line, whether the text drawn last (up to cell `m`)
/// carried zero-width characters: a cell's own zero-width characters decide
/// it, a wide-character spacer passes it on, and a space that is the padding
/// after such characters clears it.
pub open spec fn extras_after(cells: Seq<GridCell>, m: int) -> bool
    decreases m,
{
    if m < 0 || m >= cells.len() {
        false
    } else {
        let prev = m > 0 && cells[m - 1].line == cells[m].line && extras_after(cells, m - 1);
        if cells[m].flags.wide_char_spacer {
            prev
        } else if cells[m].c == ' ' && prev {
            false
        } else {
            cells[m].zerowidth@.len() > 0
        }
    }
}

/// Cell `k` is a space that pads zero-width characters drawn just before it
/// on the same grid line.
pub open spec fn padding_at(cells: Seq<GridCell>, k: int) -> bool {
    &&& cells[k].c == ' '
    &&& k > 0
    &&& cells[k - 1].line == cells[k].line
    &&& extras_after(cells, k - 1)
}

/// Cell `k` shows text: it is not a wide-character spacer, not padding, and
/// not a plain space on the default background without underline,
/// inversion or strike-out.
pub open spec fn shows_text(cells: Seq<GridCell>, k: int) -> bool {
    let cell = cells[k];
    &&& !cell.flags.wide_char_spacer
    &&& !padding_at(cells, k)
    &&& !(cell.c == ' ' && cell.bg == Color::Named(NamedColor::Background) && !cell.flags.underline
        && !cell.flags.double_underline && !cell.flags.undercurl && !cell.flags.dotted_underline
        && !cell.flags.dashed_underline && !cell.flags.inverse && !cell.flags.strikeout)
}

/// The run spans column `col` of line `line`.
pub open spec fn run_spans(run: RunView, line: int, col: int) -> bool {
    run.start_line == line && run.start_column <= col < run.start_column + run.cell_count
}

/// Some run spans cell `k`'s column on its line group and looks as that
/// cell must: its foreground is the cell's background when the cell is
/// inverse and its foreground otherwise; bold, dim, italic, struck out and
/// underlined as its flags (and the terminal's own weight) say.
pub open spec fn cell_in_runs(runs: Seq<RunView>, cells: Seq<GridCell>, k: int, base_bold: bool) -> bool {
    let cell = cells[k];
    exists|r: int|
        0 <= r < runs.len() && #[trigger] run_spans(runs[r], group_of(cells, k), cell.column as int)
            && runs[r].look.fg == color_rgb_spec(
            if cell.flags.inverse {
                cell.bg
            } else {
                cell.fg
            },
        ) && runs[r].look.bold == (cell.flags.bold || base_bold) && runs[r].look.dim == cell.flags.dim
            && runs[r].look.italic == cell.flags.italic && runs[r].look.strikethrough
            == cell.flags.strikeout && runs[r].look.underline == if cell.flags.underline
            || cell.flags.double_underline || cell.flags.undercurl || cell.flags.dotted_underline
            || cell.flags.dashed_underline {
            Some(cell.flags.undercurl)
        } else {
            None
        }
}

proof fn lemma_extras_after_prefix(cells: Seq<GridCell>, n: int, m: int)
    requires
        0 <= m < n <= cells.len(),
    ensures
        extras_after(cells.take(n), m) == extras_after(cells, m),
    decreases m,
{
    if m > 0 {
        lemma_extras_after_prefix(cells, n, m - 1);
    }
}

/// The pass's memory of zero-width characters is `extras_after`.
proof fn lemma_scan_extras(cells: Seq<GridCell>, base_bold: bool)
    ensures
        cells.len() > 0 ==> scan_cells(cells, base_bold).prev_extras == extras_after(cells, cells.len() - 1),
    decreases cells.len(),
{
    if cells.len() > 0 {
        let n = cells.len() - 1;
        let init = cells.drop_last();
        lemma_scan_extras(init, base_bold);
        lemma_scan_line_index(init, base_bold);
        assert(init =~= cells.take(n));
        if n > 0 {
            lemma_extras_after_prefix(cells, n, n - 1);
            assert(init.last() == cells[n - 1]);
        }
    }
}

/// Whether the pass draws a cell is `shows_text`.
proof fn lemma_drawn_is_shows_text(cells: Seq<GridCell>, k: int, base_bold: bool)
    requires
        0 <= k < cells.len(),
    ensures
        drawn(cells, k, base_bold) == shows_text(cells, k),
{
    let pre = cells.take(k);
    lemma_scan_line_index(pre, base_bold);
    lemma_scan_extras(pre, base_bold);
    if k > 0 {
        assert(pre.last() == cells[k - 1]);
        lemma_extras_after_prefix(cells, k, k - 1);
    }
}

proof fn lemma_shows_text_prefix(cells: Seq<GridCell>, n: int, k: int)
    requires
        0 <= k < n <= cells.len(),
    ensures
        shows_text(cells.take(n), k) == shows_text(cells, k),
{
    if k > 0 {
        lemma_extras_after_prefix(cells, n, k - 1);
    }
}

/// One step of the pass keeps every earlier run where it stood, with its
/// look, start and at least its width; and a drawn cell ends up in a run
/// that spans its column and has its look.
proof fn lemma_step_runs(s0: GridScan, cell: GridCell, base_bold: bool)
    requires
        -1 <= s0.line_index < i32::MAX,
    ensures
        ({
            let f0 = final_runs(s0);
            let f1 = final_runs(scan_cell(s0, cell, base_bold));
            &&& f0.len() <= f1.len()
            &&& forall|r: int|
                0 <= r < f0.len() ==> (#[trigger] f1[r]).look == f0[r].look && f1[r].start_line
                    == f0[r].start_line && f1[r].start_column == f0[r].start_column
                    && f1[r].cell_count >= f0[r].cell_count
        }),
        !cell.flags.wide_char_spacer && !(cell.c == ' ' && s0.last_line == Some(cell.line)
            && s0.prev_extras) && !blank(cell) ==> ({
            let s1 = scan_cell(s0, cell, base_bold);
            let f1 = final_runs(s1);
            exists|r: int|
                0 <= r < f1.len() && #[trigger] run_spans(f1[r], s1.line_index, cell.column as int)
                    && f1[r].look == look_of(cell.flags, shown_fg(cell), base_bold)
        }),
{
    let s1 = scan_cell(s0, cell, base_bold);
    let new_group = s0.last_line != Some(cell.line);
    let li = s1.line_index;
    let runs0 = if new_group && s0.current is Some { s0.runs.push(s0.current->0) } else { s0.runs };
    let current0 = if new_group { None } else { s0.current };
    let f0 = final_runs(s0);
    let f1 = final_runs(s1);
    assert(f0 == match current0 {
        Some(r) => runs0.push(r),
        None => runs0,
    });
    let look = look_of(cell.flags, shown_fg(cell), base_bold);
    let drawn_here = !cell.flags.wide_char_spacer && !(cell.c == ' ' && s0.last_line == Some(
        cell.line,
    ) && s0.prev_extras) && !blank(cell);
    if drawn_here {
        match current0 {
            Some(run) => {
                if run.look == look && run.start_line == li && run.start_column + run.cell_count
                    == cell.column {
                    let ext = run_extend(run, cell);
                    assert(f1 == runs0.push(ext));
                    assert(f1[runs0.len() as int] == ext);
                    assert(run_spans(f1[runs0.len() as int], li, cell.column as int));
                } else {
                    let st = run_start(li, cell, look);
                    assert(f1 == runs0.push(run).push(st));
                    assert(f1[runs0.len() + 1int] == st);
                    assert(run_spans(f1[runs0.len() + 1int], li, cell.column as int));
                }
            },
            None => {
                let st = run_start(li, cell, look);
                assert(f1 == runs0.push(st));
                assert(f1[runs0.len() as int] == st);
                assert(run_spans(f1[runs0.len() as int], li, cell.column as int));
            },
        }
    } else {
        assert(f1 == f0);
    }
}

/// Every cell that shows text is drawn in a run that spans its column on
/// its line group and has the cell's look: in particular an inverse cell's
/// text takes the cell's background as its color.
pub proof fn lemma_drawn_cells_in_runs(cells: Seq<GridCell>, base_bold: bool)
    requires
        cells.len() <= i32::MAX,
    ensures
        forall|k: int|
            0 <= k < cells.len() && #[trigger] shows_text(cells, k) ==> cell_in_runs(
                final_runs(scan_cells(cells, base_bold)),
                cells,
                k,
                base_bold,
            ),
    decreases cells.len(),
{
    if cells.len() > 0 {
        let n = cells.len() - 1;
        let init = cells.drop_last();
        let cell = cells.last();
        lemma_drawn_cells_in_runs(init, base_bold);
        lemma_scan_line_index(cells, base_bold);
        lemma_scan_line_index(init, base_bold);
        assert(init =~= cells.take(n));
        let s0 = scan_cells(init, base_bold);
        let s1 = scan_cells(cells, base_bold);
        assert(s1 == scan_cell(s0, cell, base_bold));
        let f0 = final_runs(s0);
        let f1 = final_runs(s1);
        lemma_group_of_bounds(cells, n);
        if n > 0 {
            lemma_group_of_bounds(cells, n - 1);
            assert(init.last() == cells[n - 1]);
            lemma_group_of_prefix(cells, n, n - 1);
        }
        lemma_step_runs(s0, cell, base_bold);
        lemma_drawn_is_shows_text(cells, n, base_bold);
        lemma_look_fields(cell.flags, shown_fg(cell), base_bold);
        assert forall|k: int| 0 <= k < cells.len() && #[trigger] shows_text(cells, k) implies cell_in_runs(
            f1,
            cells,
            k,
            base_bold,
        ) by {
            let c = cells[k];
            if k < n {
                lemma_shows_text_prefix(cells, n, k);
                lemma_group_of_prefix(cells, n, k);
                assert(init[k] == c);
                assert(shows_text(init, k));
                assert(cell_in_runs(f0, init, k, base_bold));
                let r = choose|r: int|
                    0 <= r < f0.len() && #[trigger] run_spans(f0[r], group_of(init, k), init[k].column as int)
                        && f0[r].look.fg == color_rgb_spec(
                        if init[k].flags.inverse {
                            init[k].bg
                        } else {
                            init[k].fg
                        },
                    ) && f0[r].look.bold == (init[k].flags.bold || base_bold) && f0[r].look.dim
                        == init[k].flags.dim && f0[r].look.italic == init[k].flags.italic
                        && f0[r].look.strikethrough == init[k].flags.strikeout && f0[r].look.underline
                        == if init[k].flags.underline || init[k].flags.double_underline
                        || init[k].flags.undercurl || init[k].flags.dotted_underline
                        || init[k].flags.dashed_underline {
                        Some(init[k].flags.undercurl)
                    } else {
                        None
                    };
                assert(f1[r].look == f0[r].look);
                assert(run_spans(f1[r], group_of(cells, k), c.column as int));
            } else {
                assert(k == n);
                assert(c == cell);
                assert(s0.last_line == Some(cell.line) && s0.prev_extras <==> extras_before(cells, n, base_bold));
                let r = choose|r: int|
                    0 <= r < f1.len() && #[trigger] run_spans(f1[r], s1.line_index, cell.column as int)
                        && f1[r].look == look_of(cell.flags, shown_fg(cell), base_bold);
                assert(run_spans(f1[r], group_of(cells, k), c.column as int));
            }
        }
    }
}

} // verus!
