//! Background rectangles: runs of cells that share a background color are
//! collected into rectangular regions, and adjacent regions of one color are
//! merged so that fewer rectangles are painted.
use vstd::prelude::*;

use crate::color::Rgb;

verus! {

/// A rectangle of cells, inclusive on both ends, painted with one color.
#[derive(Clone, Copy, Debug, PartialEq, Eq, Structural)]
pub struct BackgroundRegion {
    pub start_line: i32,
    pub start_col: i32,
    pub end_line: i32,
    pub end_col: i32,
    pub color: Rgb,
}

impl BackgroundRegion {
    /// A region is well formed when its start is not past its end.
    pub open spec fn wf(self) -> bool {
        self.start_line <= self.end_line && self.start_col <= self.end_col
    }

    /// The region paints cell (`line`, `col`) with `color`.
    pub open spec fn paints(self, line: int, col: int, color: Rgb) -> bool {
        &&& self.color == color
        &&& self.start_line <= line <= self.end_line
        &&& self.start_col <= col <= self.end_col
    }

    /// Two regions of one color can merge when they span the same lines and
    /// touch side by side, or (spanning different lines) span the same
    /// columns and touch one above the other.
    pub open spec fn mergeable(self, other: BackgroundRegion) -> bool {
        if self.color != other.color {
            false
        } else if self.start_line == other.start_line && self.end_line == other.end_line {
            self.end_col + 1 == other.start_col || other.end_col + 1 == self.start_col
        } else if self.start_col == other.start_col && self.end_col == other.end_col {
            self.end_line + 1 == other.start_line || other.end_line + 1 == self.start_line
        } else {
            false
        }
    }

    /// The smallest region holding both regions, in the color of `self`.
    pub open spec fn hull(self, other: BackgroundRegion) -> BackgroundRegion {
        BackgroundRegion {
            start_line: if self.start_line <= other.start_line { self.start_line } else { other.start_line },
            start_col: if self.start_col <= other.start_col { self.start_col } else { other.start_col },
            end_line: if self.end_line >= other.end_line { self.end_line } else { other.end_line },
            end_col: if self.end_col >= other.end_col { self.end_col } else { other.end_col },
            color: self.color,
        }
    }

    /// A one-cell region.
    pub fn new(line: i32, col: i32, color: Rgb) -> (r: BackgroundRegion)
        ensures
            r == (BackgroundRegion { start_line: line, start_col: col, end_line: line, end_col: col, color }),
            r.wf(),
    {
        BackgroundRegion { start_line: line, start_col: col, end_line: line, end_col: col, color }
    }

    /// Whether this region and `other` can be merged into one rectangle.
    pub fn can_merge_with(&self, other: &BackgroundRegion) -> (b: bool)
        ensures
            b == self.mergeable(*other),
    {
        if self.color != other.color {
            return false;
        }
        if self.start_line == other.start_line && self.end_line == other.end_line {
            return self.end_col as i64 + 1 == other.start_col as i64
                || other.end_col as i64 + 1 == self.start_col as i64;
        }
        if self.start_col == other.start_col && self.end_col == other.end_col {
            return self.end_line as i64 + 1 == other.start_line as i64
                || other.end_line as i64 + 1 == self.start_line as i64;
        }
        false
    }

    /// Grows this region to the hull of itself and `other`.
    pub fn merge_with(&mut self, other: &BackgroundRegion)
        ensures
            *final(self) == old(self).hull(*other),
    {
        if other.start_line < self.start_line {
            self.start_line = other.start_line;
        }
        if other.start_col < self.start_col {
            self.start_col = other.start_col;
        }
        if other.end_line > self.end_line {
            self.end_line = other.end_line;
        }
        if other.end_col > self.end_col {
            self.end_col = other.end_col;
        }
    }
}

/// Some region of `regions` paints cell (`line`, `col`) with `color`.
pub open spec fn covers(regions: Seq<BackgroundRegion>, line: int, col: int, color: Rgb) -> bool {
    exists|k: int| 0 <= k < regions.len() && #[trigger] regions[k].paints(line, col, color)
}

pub open spec fn all_wf(regions: Seq<BackgroundRegion>) -> bool {
    forall|k: int| 0 <= k < regions.len() ==> #[trigger] regions[k].wf()
}

/// No two regions of the sequence can be merged.
pub open spec fn fully_merged(regions: Seq<BackgroundRegion>) -> bool {
    forall|p: int, q: int| 0 <= p < q < regions.len() ==> !(#[trigger] regions[p]).mergeable(#[trigger] regions[q])
}

/// Mergeability does not depend on the order of the two regions.
pub proof fn lemma_mergeable_symmetric(a: BackgroundRegion, b: BackgroundRegion)
    ensures
        a.mergeable(b) == b.mergeable(a),
{
}

/// Two mergeable well-formed regions paint, together, exactly the cells of
/// their hull; the hull is well formed.
pub proof fn lemma_hull_is_union(a: BackgroundRegion, b: BackgroundRegion)
    requires
        a.wf(),
        b.wf(),
        a.mergeable(b),
    ensures
        a.hull(b).wf(),
        forall|line: int, col: int, color: Rgb|
            #[trigger] a.hull(b).paints(line, col, color) <==> (a.paints(line, col, color)
                || b.paints(line, col, color)),
{
}

/// Replacing regions `i` and `j` (`i < j`) by their hull, at index `i`,
/// leaves the painted cells unchanged.
proof fn lemma_merge_step_covers(s: Seq<BackgroundRegion>, i: int, j: int)
    requires
        0 <= i < j < s.len(),
        all_wf(s),
        s[i].mergeable(s[j]),
    ensures
        all_wf(s.remove(j).update(i, s[i].hull(s[j]))),
        forall|line: int, col: int, color: Rgb|
            #[trigger] covers(s.remove(j).update(i, s[i].hull(s[j])), line, col, color)
                == covers(s, line, col, color),
{
    let t = s.remove(j).update(i, s[i].hull(s[j]));
    lemma_hull_is_union(s[i], s[j]);
    assert forall|k: int| 0 <= k < t.len() implies #[trigger] t[k].wf() by {
        if k == i {
        } else if k < j {
            assert(t[k] == s[k]);
        } else {
            assert(t[k] == s[k + 1]);
        }
    }
    assert forall|line: int, col: int, color: Rgb|
        #[trigger] covers(t, line, col, color) == covers(s, line, col, color) by {
        if covers(t, line, col, color) {
            let k = choose|k: int| 0 <= k < t.len() && #[trigger] t[k].paints(line, col, color);
            if k == i {
                if s[i].paints(line, col, color) {
                    assert(s[i].paints(line, col, color));
                } else {
                    assert(s[j].paints(line, col, color));
                }
            } else if k < j {
                assert(s[k].paints(line, col, color));
            } else {
                assert(s[k + 1].paints(line, col, color));
            }
        }
        if covers(s, line, col, color) {
            let k = choose|k: int| 0 <= k < s.len() && #[trigger] s[k].paints(line, col, color);
            if k == i || k == j {
                assert(t[i].paints(line, col, color));
            } else if k < j {
                assert(t[k] == s[k]);
                assert(t[k].paints(line, col, color));
            } else {
                assert(t[k - 1] == s[k]);
                assert(t[k - 1].paints(line, col, color));
            }
        }
    }
}

/// The two regions share no cell (for well-formed regions): one lies wholly
/// above, below, left or right of the other.
pub open spec fn apart(a: BackgroundRegion, b: BackgroundRegion) -> bool {
    a.end_line < b.start_line || b.end_line < a.start_line || a.end_col < b.start_col
        || b.end_col < a.start_col
}

/// No two regions of the sequence share a cell.
pub open spec fn pairwise_apart(regions: Seq<BackgroundRegion>) -> bool {
    forall|p: int, q: int| 0 <= p < q < regions.len() ==> apart(#[trigger] regions[p], #[trigger] regions[q])
}

/// The hull of two mergeable regions shares no cell with a well-formed
/// region that shares none with either of them.
proof fn lemma_hull_apart(a: BackgroundRegion, b: BackgroundRegion, c: BackgroundRegion)
    requires
        a.wf(),
        b.wf(),
        c.wf(),
        a.mergeable(b),
        apart(a, c),
        apart(b, c),
    ensures
        apart(a.hull(b), c),
        apart(c, a.hull(b)),
{
}

/// Replacing regions `i` and `j` (`i < j`) by their hull keeps well-formed
/// regions pairwise apart.
proof fn lemma_merge_step_apart(s: Seq<BackgroundRegion>, i: int, j: int)
    requires
        0 <= i < j < s.len(),
        all_wf(s),
        pairwise_apart(s),
        s[i].mergeable(s[j]),
    ensures
        pairwise_apart(s.remove(j).update(i, s[i].hull(s[j]))),
{
    let t = s.remove(j).update(i, s[i].hull(s[j]));
    assert(s[i].wf() && s[j].wf());
    assert forall|p: int, q: int| 0 <= p < q < t.len() implies apart(#[trigger] t[p], #[trigger] t[q]) by {
        let sp = if p < j { p } else { p + 1 };
        let sq = if q < j { q } else { q + 1 };
        assert(sp < sq);
        if p == i {
            assert(s[sq].wf());
            assert(apart(s[i], s[sq]));
            assert(apart(s[j], s[sq]) || apart(s[sq], s[j]));
            lemma_hull_apart(s[i], s[j], s[sq]);
        } else if q == i {
            assert(s[sp].wf());
            assert(apart(s[sp], s[i]));
            if sp < j {
                assert(apart(s[sp], s[j]));
            }
            lemma_hull_apart(s[i], s[j], s[sp]);
        } else {
            assert(t[p] == s[sp]);
            assert(t[q] == s[sq]);
        }
    }
}

/// Region `i` absorbs, in order from index `j` on, every later region that
/// it can merge with (each is removed and `i` grows to the hull).
pub open spec fn merge_into(s: Seq<BackgroundRegion>, i: int, j: int) -> Seq<BackgroundRegion>
    decreases s.len() - j,
{
    if !(0 <= i < j < s.len()) {
        s
    } else if s[i].mergeable(s[j]) {
        merge_into(s.remove(j).update(i, s[i].hull(s[j])), i, j)
    } else {
        merge_into(s, i, j + 1)
    }
}

/// Absorbing regions never lengthens the sequence, nor shortens it below
/// `j` regions.
pub proof fn lemma_merge_into_len(s: Seq<BackgroundRegion>, i: int, j: int)
    ensures
        merge_into(s, i, j).len() <= s.len(),
        0 <= i < j ==> merge_into(s, i, j).len() >= if s.len() < j { s.len() as int } else { j },
    decreases s.len() - j,
{
    if 0 <= i < j < s.len() {
        if s[i].mergeable(s[j]) {
            lemma_merge_into_len(s.remove(j).update(i, s[i].hull(s[j])), i, j);
        } else {
            lemma_merge_into_len(s, i, j + 1);
        }
    }
}

/// One pass: each region in turn, from index `i` on, absorbs the later
/// regions it can merge with.
pub open spec fn merge_pass(s: Seq<BackgroundRegion>, i: int) -> Seq<BackgroundRegion>
    decreases s.len() - i,
{
    if i < 0 || i >= s.len() {
        s
    } else {
        proof {
            lemma_merge_into_len(s, i, i + 1);
        }
        merge_pass(merge_into(s, i, i + 1), i + 1)
    }
}

/// Passes are repeated until one merges nothing.
pub open spec fn merge_fixpoint(s: Seq<BackgroundRegion>) -> Seq<BackgroundRegion>
    decreases s.len(),
{
    let t = merge_pass(s, 0);
    if t.len() < s.len() {
        merge_fixpoint(t)
    } else {
        t
    }
}

/// Repeatedly merges regions until no two of them can be merged: the
/// result is `merge_fixpoint` of the input.
///
/// The result paints exactly the cells the input paints (for well-formed
/// input), holds no mergeable pair, and is no longer than the input; regions
/// that share no cell still share none; input that holds no mergeable pair
/// comes back unchanged.
pub fn merge_background_regions(regions: Vec<BackgroundRegion>) -> (merged: Vec<BackgroundRegion>)
    ensures
        merged.len() <= regions.len(),
        fully_merged(merged@),
        all_wf(regions@) ==> all_wf(merged@),
        all_wf(regions@) ==> forall|line: int, col: int, color: Rgb|
            #[trigger] covers(merged@, line, col, color) == covers(regions@, line, col, color),
        all_wf(regions@) && pairwise_apart(regions@) ==> pairwise_apart(merged@),
        fully_merged(regions@) ==> merged@ == regions@,
        merged@ == merge_fixpoint(regions@),
{
    if regions.len() == 0 {
        proof {
            assert(merge_pass(regions@, 0) == regions@);
        }
        return regions;
    }
    let ghost input = regions@;
    let mut merged = regions;
    let mut changed = true;

    while changed
        invariant
            merged.len() <= input.len(),
            all_wf(input) ==> all_wf(merged@),
            all_wf(input) ==> forall|line: int, col: int, color: Rgb|
                #[trigger] covers(merged@, line, col, color) == covers(input, line, col, color),
            all_wf(input) && pairwise_apart(input) ==> pairwise_apart(merged@),
            fully_merged(input) ==> merged@ == input,
            !changed ==> fully_merged(merged@),
            changed ==> merge_fixpoint(merged@) == merge_fixpoint(input),
            !changed ==> merged@ == merge_fixpoint(input),
        decreases merged.len() + if changed { 1int } else { 0int },
    {
        let ghost pass_start = merged@;
        changed = false;
        let mut i: usize = 0;
        proof {
            assert(merge_pass(merged@, 0) == merge_pass(pass_start, 0));
        }

        while i < merged.len()
            invariant
                merged.len() <= input.len(),
                all_wf(input) ==> all_wf(merged@),
                all_wf(input) ==> forall|line: int, col: int, color: Rgb|
                    #[trigger] covers(merged@, line, col, color) == covers(input, line, col, color),
                all_wf(input) && pairwise_apart(input) ==> pairwise_apart(merged@),
                fully_merged(input) ==> merged@ == input && !changed,
                changed ==> merged.len() < pass_start.len(),
                !changed ==> merged@ == pass_start,
                !changed ==> forall|p: int, q: int|
                    0 <= p < i && p < q < merged.len() ==> !(#[trigger] merged@[p]).mergeable(
                        #[trigger] merged@[q],
                    ),
                merge_pass(merged@, i as int) == merge_pass(pass_start, 0),
                merge_fixpoint(pass_start) == merge_fixpoint(input),
                pass_start.len() <= input.len(),
            decreases merged.len() - i,
        {
            let ghost len_before = merged.len();
            let mut j: usize = i + 1;
            proof {
                assert(merge_pass(merged@, i as int) == merge_pass(merge_into(merged@, i as int, i + 1), i + 1));
            }
            while j < merged.len()
                invariant
                    i < j <= merged.len(),
                    merged.len() <= len_before,
                    merged.len() <= input.len(),
                    all_wf(input) ==> all_wf(merged@),
                    all_wf(input) ==> forall|line: int, col: int, color: Rgb|
                        #[trigger] covers(merged@, line, col, color) == covers(input, line, col, color),
                    all_wf(input) && pairwise_apart(input) ==> pairwise_apart(merged@),
                    fully_merged(input) ==> merged@ == input && !changed,
                    changed ==> merged.len() < pass_start.len(),
                    !changed ==> merged@ == pass_start,
                    !changed ==> forall|p: int, q: int|
                        0 <= p < i && p < q < merged.len() ==> !(#[trigger] merged@[p]).mergeable(
                            #[trigger] merged@[q],
                        ),
                    !changed ==> forall|q: int|
                        i < q < j ==> !merged@[i as int].mergeable(#[trigger] merged@[q]),
                    merge_pass(merge_into(merged@, i as int, j as int), i + 1) == merge_pass(
                        pass_start,
                        0,
                    ),
                    merge_fixpoint(pass_start) == merge_fixpoint(input),
                decreases merged.len() - j,
            {
                if merged[i].can_merge_with(&merged[j]) {
                    let ghost before = merged@;
                    let other = merged.remove(j);
                    let mut grown = merged[i];
                    grown.merge_with(&other);
                    merged.set(i, grown);
                    proof {
                        assert(merged@ == before.remove(j as int).update(i as int, before[i as int].hull(before[j as int])));
                        if all_wf(input) {
                            lemma_merge_step_covers(before, i as int, j as int);
                            if pairwise_apart(input) {
                                lemma_merge_step_apart(before, i as int, j as int);
                            }
                        }
                        if fully_merged(input) {
                            assert(!before[i as int].mergeable(before[j as int]));
                        }
                        assert(merge_into(before, i as int, j as int) == merge_into(merged@, i as int, j as int));
                    }
                    changed = true;
                } else {
                    proof {
                        assert(merge_into(merged@, i as int, j as int) == merge_into(merged@, i as int, j + 1));
                    }
                    j += 1;
                }
            }
            proof {
                assert(merge_into(merged@, i as int, j as int) == merged@);
            }
            i += 1;
        }
        proof {
            assert(merge_pass(merged@, i as int) == merged@);
            let t = merge_pass(pass_start, 0);
            assert(merge_fixpoint(pass_start) == if t.len() < pass_start.len() {
                merge_fixpoint(t)
            } else {
                t
            });
        }
    }
    merged
}

} // verus!
