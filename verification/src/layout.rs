//! Grouping of characters into layout text lines.
//!
//! Characters are taken in content-stream order. Each neighbouring pair has
//! been classified as horizontally and/or vertically aligned (geometry the
//! caller measures); this module decides which characters form one line.

use vstd::prelude::*;

use crate::objects::first_appearances;
use crate::pages::index_range;

verus! {

/// Orientation of a layout line or box.
#[derive(Debug, Clone, Copy, PartialEq, Eq, Structural)]
pub enum LayoutOrientation {
    /// Text running left to right.
    Horizontal,
    /// Text running top to bottom.
    Vertical,
}

/// How character `k` relates to character `k + 1`.
#[derive(Debug, Clone, Copy, PartialEq, Eq, Structural)]
pub struct PairAlignment {
    /// The two characters sit side by side on one horizontal line.
    pub horizontal: bool,
    /// The two characters sit one above the other in one vertical column.
    pub vertical: bool,
}

/// A layout line: its orientation and the indices of its characters.
#[derive(Debug)]
pub struct LayoutLineGroup {
    /// Orientation of the line.
    pub orientation: LayoutOrientation,
    /// Indices of the line's characters, in order.
    pub char_indices: Vec<usize>,
}

/// A line as a spec value: orientation, first and last character index.
pub type LineRun = (LayoutOrientation, int, int);

/// Whether pair `k` keeps a line of orientation `o` going. Vertical alignment
/// counts only when vertical text detection is on.
pub open spec fn continues(a: Seq<PairAlignment>, detect_vertical: bool, o: LayoutOrientation, k: int) -> bool {
    match o {
        LayoutOrientation::Horizontal => a[k].horizontal,
        LayoutOrientation::Vertical => detect_vertical && a[k].vertical,
    }
}

/// Whether pair `s` opens a new line of orientation `o` at character `s`: it is
/// aligned in that orientation and not in the other.
pub open spec fn opens(a: Seq<PairAlignment>, detect_vertical: bool, o: LayoutOrientation, s: int) -> bool {
    0 <= s < a.len() && match o {
        LayoutOrientation::Horizontal => a[s].horizontal && !(detect_vertical && a[s].vertical),
        LayoutOrientation::Vertical => (detect_vertical && a[s].vertical) && !a[s].horizontal,
    }
}

/// The last character of a line of orientation `o` that has reached character
/// `j`: the line keeps going while the pairs from `j` on continue it.
pub open spec fn extent(a: Seq<PairAlignment>, detect_vertical: bool, o: LayoutOrientation, j: int) -> int
    decreases a.len() - j,
{
    if 0 <= j < a.len() && continues(a, detect_vertical, o, j) {
        extent(a, detect_vertical, o, j + 1)
    } else {
        j
    }
}

/// A line that has reached `j` ends at or after `j` and within the text; every
/// pair inside it continues it, and the pair after it (if any) does not.
pub proof fn lemma_extent_bounds(a: Seq<PairAlignment>, detect_vertical: bool, o: LayoutOrientation, j: int)
    requires
        0 <= j <= a.len(),
    ensures
        j <= extent(a, detect_vertical, o, j) <= a.len(),
        forall|k: int| j <= k < extent(a, detect_vertical, o, j) ==> continues(a, detect_vertical, o, k),
        extent(a, detect_vertical, o, j) < a.len() ==> !continues(
            a,
            detect_vertical,
            o,
            extent(a, detect_vertical, o, j),
        ),
    decreases a.len() - j,
{
    if j < a.len() && continues(a, detect_vertical, o, j) {
        lemma_extent_bounds(a, detect_vertical, o, j + 1);
    }
}

/// The lines of the characters from `s` on, as (orientation, first, last).
///
/// A line opens at `s` when pair `s` is aligned in exactly one orientation and
/// then extends as far as the pairs continue it; otherwise character `s` forms
/// a horizontal line on its own.
pub open spec fn line_runs(a: Seq<PairAlignment>, detect_vertical: bool, s: int) -> Seq<LineRun>
    decreases a.len() + 1 - s,
{
    if s < 0 || s > a.len() {
        Seq::empty()
    } else if opens(a, detect_vertical, LayoutOrientation::Vertical, s) {
        let e = extent(a, detect_vertical, LayoutOrientation::Vertical, s + 1);
        proof {
            lemma_extent_bounds(a, detect_vertical, LayoutOrientation::Vertical, s + 1);
        }
        seq![(LayoutOrientation::Vertical, s, e)] + line_runs(a, detect_vertical, e + 1)
    } else if opens(a, detect_vertical, LayoutOrientation::Horizontal, s) {
        let e = extent(a, detect_vertical, LayoutOrientation::Horizontal, s + 1);
        proof {
            lemma_extent_bounds(a, detect_vertical, LayoutOrientation::Horizontal, s + 1);
        }
        seq![(LayoutOrientation::Horizontal, s, e)] + line_runs(a, detect_vertical, e + 1)
    } else {
        seq![(LayoutOrientation::Horizontal, s, s)] + line_runs(a, detect_vertical, s + 1)
    }
}

/// The layout lines of `char_count` characters whose neighbouring pairs are
/// classified by `a`.
pub open spec fn layout_line_runs(a: Seq<PairAlignment>, detect_vertical: bool, char_count: int) -> Seq<LineRun> {
    if char_count == 0 {
        Seq::empty()
    } else {
        line_runs(a, detect_vertical, 0)
    }
}

/// `g` is the line `r`: same orientation, characters `r.1..=r.2` in order.
pub open spec fn group_is_run(g: LayoutLineGroup, r: LineRun) -> bool {
    g.orientation == r.0 && g.char_indices@ == index_range(r.1, r.2 + 1)
}

/// The groups are exactly the runs, in order.
pub open spec fn groups_are_runs(groups: Seq<LayoutLineGroup>, runs: Seq<LineRun>) -> bool {
    groups.len() == runs.len() && forall|i: int|
        0 <= i < groups.len() ==> #[trigger] group_is_run(groups[i], runs[i])
}

/// Group characters into layout lines.
///
/// `alignments[k]` classifies characters `k` and `k + 1`; vertical alignment is
/// used only when `detect_vertical` is set.
pub fn group_layout_lines(
    char_count: usize,
    alignments: &Vec<PairAlignment>,
    detect_vertical: bool,
) -> (res: Vec<LayoutLineGroup>)
    requires
        char_count == 0 ==> alignments.len() == 0,
        char_count > 0 ==> alignments.len() + 1 == char_count,
    ensures
        groups_are_runs(res@, layout_line_runs(alignments@, detect_vertical, char_count as int)),
        forall|i: int|
            0 <= i < res@.len() ==> (#[trigger] res@[i]).char_indices@ == index_range(
                group_run(res@[i]).1,
                group_run(res@[i]).2 + 1,
            ),
        lines_break_characters(
            res@.map_values(|g: LayoutLineGroup| group_run(g)),
            alignments@,
            detect_vertical,
            char_count as int,
        ),
{
    let ghost a = alignments@;
    let ghost dv = detect_vertical;
    let mut lines: Vec<LayoutLineGroup> = Vec::new();
    if char_count == 0 {
        proof {
            lemma_groups_break_characters(lines@, a, dv, char_count as int);
        }
        return lines;
    }
    let ghost all = line_runs(a, dv, 0);
    let ghost mut done: Seq<LineRun> = Seq::empty();
    let mut cur_open = false;
    let mut cur_orientation = LayoutOrientation::Horizontal;
    let mut cur_indices: Vec<usize> = Vec::new();
    let mut cur_start: usize = 0;
    let mut previous: usize = 0;
    let mut next: usize = 1;
    assert(all == done + line_runs(a, dv, 0));
    while next < char_count
        invariant
            a == alignments@,
            dv == detect_vertical,
            alignments.len() + 1 == char_count,
            1 <= next <= char_count,
            previous + 1 == next,
            all == line_runs(a, dv, 0),
            groups_are_runs(lines@, done),
            !cur_open ==> all == done + line_runs(a, dv, previous as int),
            cur_open ==> {
                &&& cur_start < previous
                &&& cur_indices@ == index_range(cur_start as int, previous + 1)
                &&& opens(a, dv, cur_orientation, cur_start as int)
                &&& all == done + line_runs(a, dv, cur_start as int)
                &&& extent(a, dv, cur_orientation, previous as int) == extent(
                    a,
                    dv,
                    cur_orientation,
                    cur_start + 1,
                )
            },
        decreases char_count - next,
    {
        let pair = alignments[previous];
        let horizontal = pair.horizontal;
        let vertical = detect_vertical && pair.vertical;
        let continues_line = cur_open && match cur_orientation {
            LayoutOrientation::Horizontal => horizontal,
            LayoutOrientation::Vertical => vertical,
        };
        if continues_line {
            cur_indices.push(next);
            assert(cur_indices@ =~= index_range(cur_start as int, next + 1));
        } else if cur_open {
            proof {
                lemma_extent_bounds(a, dv, cur_orientation, cur_start + 1);
                assert(extent(a, dv, cur_orientation, previous as int) == previous);
                assert(line_runs(a, dv, cur_start as int) == seq![
                    (cur_orientation, cur_start as int, previous as int),
                ] + line_runs(a, dv, next as int));
                assert(all == done.push((cur_orientation, cur_start as int, previous as int))
                    + line_runs(a, dv, next as int));
            }
            let finished = LayoutLineGroup { orientation: cur_orientation, char_indices: cur_indices };
            lines.push(finished);
            proof {
                done = done.push((cur_orientation, cur_start as int, previous as int));
                assert(groups_are_runs(lines@, done)) by {
                    assert forall|i: int| 0 <= i < lines@.len() implies #[trigger] group_is_run(
                        lines@[i],
                        done[i],
                    ) by {
                        if i < lines@.len() - 1 {
                            assert(group_is_run(lines@.drop_last()[i], done.drop_last()[i]));
                        }
                    }
                }
            }
            cur_indices = Vec::new();
            cur_open = false;
        } else if vertical && !horizontal {
            proof {
                lemma_extent_bounds(a, dv, LayoutOrientation::Vertical, next as int);
            }
            cur_open = true;
            cur_orientation = LayoutOrientation::Vertical;
            cur_start = previous;
            cur_indices = Vec::new();
            cur_indices.push(previous);
            cur_indices.push(next);
            assert(cur_indices@ =~= index_range(cur_start as int, next + 1));
        } else if horizontal && !vertical {
            proof {
                lemma_extent_bounds(a, dv, LayoutOrientation::Horizontal, next as int);
            }
            cur_open = true;
            cur_orientation = LayoutOrientation::Horizontal;
            cur_start = previous;
            cur_indices = Vec::new();
            cur_indices.push(previous);
            cur_indices.push(next);
            assert(cur_indices@ =~= index_range(cur_start as int, next + 1));
        } else {
            let mut single: Vec<usize> = Vec::new();
            single.push(previous);
            let line = LayoutLineGroup { orientation: LayoutOrientation::Horizontal, char_indices: single };
            proof {
                assert(line_runs(a, dv, previous as int) == seq![
                    (LayoutOrientation::Horizontal, previous as int, previous as int),
                ] + line_runs(a, dv, next as int));
                assert(all == done.push((LayoutOrientation::Horizontal, previous as int, previous as int))
                    + line_runs(a, dv, next as int));
                assert(single@ =~= index_range(previous as int, previous + 1));
            }
            lines.push(line);
            proof {
                done = done.push((LayoutOrientation::Horizontal, previous as int, previous as int));
                assert(groups_are_runs(lines@, done)) by {
                    assert forall|i: int| 0 <= i < lines@.len() implies #[trigger] group_is_run(
                        lines@[i],
                        done[i],
                    ) by {
                        if i < lines@.len() - 1 {
                            assert(group_is_run(lines@.drop_last()[i], done.drop_last()[i]));
                        }
                    }
                }
            }
        }
        previous = next;
        next = next + 1;
    }
    let ghost last = previous as int;
    if cur_open {
        proof {
            assert(extent(a, dv, cur_orientation, last) == last);
            assert(line_runs(a, dv, last + 1) == Seq::<LineRun>::empty());
            assert(line_runs(a, dv, cur_start as int) =~= seq![(cur_orientation, cur_start as int, last)]);
            done = done.push((cur_orientation, cur_start as int, last));
        }
        let finished = LayoutLineGroup { orientation: cur_orientation, char_indices: cur_indices };
        lines.push(finished);
    } else {
        let mut single: Vec<usize> = Vec::new();
        single.push(previous);
        proof {
            assert(line_runs(a, dv, last + 1) == Seq::<LineRun>::empty());
            assert(line_runs(a, dv, last) =~= seq![(LayoutOrientation::Horizontal, last, last)]);
            assert(single@ =~= index_range(last, last + 1));
            done = done.push((LayoutOrientation::Horizontal, last, last));
        }
        lines.push(LayoutLineGroup { orientation: LayoutOrientation::Horizontal, char_indices: single });
    }
    proof {
        assert(all =~= done);
        assert forall|i: int| 0 <= i < lines@.len() implies #[trigger] group_is_run(
            lines@[i],
            done[i],
        ) by {
            if i < lines@.len() - 1 {
                assert(group_is_run(lines@.drop_last()[i], done.drop_last()[i]));
            }
        }
        lemma_groups_break_characters(lines@, a, dv, char_count as int);
    }
    lines
}

/// `r` tiles the characters `first..=last` in order, and every neighbouring
/// pair inside a run continues the run's orientation.
pub open spec fn runs_tile(
    r: Seq<LineRun>,
    a: Seq<PairAlignment>,
    detect_vertical: bool,
    first: int,
    last: int,
) -> bool {
    &&& r.len() >= 1
    &&& r[0].1 == first
    &&& r.last().2 == last
    &&& forall|i: int| 0 <= i < r.len() ==> #[trigger] r[i].1 <= r[i].2
    &&& forall|i: int| 0 <= i < r.len() - 1 ==> #[trigger] r[i].2 + 1 == r[i + 1].1
    &&& forall|i: int, k: int|
        #![trigger r[i], continues(a, detect_vertical, r[i].0, k)]
        0 <= i < r.len() && r[i].1 <= k < r[i].2 ==> continues(a, detect_vertical, r[i].0, k)
}

proof fn lemma_line_runs_tile(a: Seq<PairAlignment>, detect_vertical: bool, s: int)
    requires
        0 <= s <= a.len(),
    ensures
        runs_tile(line_runs(a, detect_vertical, s), a, detect_vertical, s, a.len() as int),
    decreases a.len() + 1 - s,
{
    let r = line_runs(a, detect_vertical, s);
    let o = if opens(a, detect_vertical, LayoutOrientation::Vertical, s) {
        LayoutOrientation::Vertical
    } else {
        LayoutOrientation::Horizontal
    };
    let e = if opens(a, detect_vertical, o, s) {
        lemma_extent_bounds(a, detect_vertical, o, s + 1);
        extent(a, detect_vertical, o, s + 1)
    } else {
        s
    };
    if opens(a, detect_vertical, o, s) {
        assert(continues(a, detect_vertical, o, s));
    }
    let head = seq![(o, s, e)];
    assert(r == head + line_runs(a, detect_vertical, e + 1));
    if e + 1 <= a.len() {
        lemma_line_runs_tile(a, detect_vertical, e + 1);
        let rest = line_runs(a, detect_vertical, e + 1);
        assert forall|i: int| 0 <= i < r.len() - 1 implies #[trigger] r[i].2 + 1 == r[i + 1].1 by {
            if i > 0 {
                assert(r[i] == rest[i - 1]);
                assert(r[i + 1] == rest[i]);
            }
        }
        assert forall|i: int| 0 <= i < r.len() implies #[trigger] r[i].1 <= r[i].2 by {
            if i > 0 {
                assert(r[i] == rest[i - 1]);
            }
        }
        assert forall|i: int, k: int|
            #![trigger r[i], continues(a, detect_vertical, r[i].0, k)]
            0 <= i < r.len() && r[i].1 <= k < r[i].2 implies continues(
            a,
            detect_vertical,
            r[i].0,
            k,
        ) by {
            if i > 0 {
                assert(r[i] == rest[i - 1]);
                assert(continues(a, detect_vertical, rest[i - 1].0, k));
            }
        }
    } else {
        assert(line_runs(a, detect_vertical, e + 1) == Seq::<LineRun>::empty());
        assert(r =~= head);
    }
}

/// Layout lines tile the characters: the first line starts at the first
/// character, each line starts right after the previous one ends, the last ends
/// at the last character, and inside a line every neighbouring pair of
/// characters is aligned along the line's orientation.
pub proof fn lemma_layout_lines_tile_characters(
    a: Seq<PairAlignment>,
    detect_vertical: bool,
    char_count: int,
)
    requires
        char_count > 0,
        a.len() + 1 == char_count,
    ensures
        runs_tile(
            layout_line_runs(a, detect_vertical, char_count),
            a,
            detect_vertical,
            0,
            char_count - 1,
        ),
{
    lemma_line_runs_tile(a, detect_vertical, 0);
}

/// `r` is a layout line: a line of two or more characters opens at its first
/// pair (aligned in its orientation only) and ends at the last character or
/// where the next pair does not continue it; a line of one character is
/// horizontal and its pair opens no line.
pub open spec fn is_layout_line(a: Seq<PairAlignment>, detect_vertical: bool, r: LineRun) -> bool {
    if r.1 < r.2 {
        &&& opens(a, detect_vertical, r.0, r.1)
        &&& (r.2 < a.len() ==> !continues(a, detect_vertical, r.0, r.2))
    } else {
        &&& r.0 == LayoutOrientation::Horizontal
        &&& !opens(a, detect_vertical, LayoutOrientation::Horizontal, r.1)
        &&& !opens(a, detect_vertical, LayoutOrientation::Vertical, r.1)
    }
}

/// `r` breaks the characters `0..char_count` into layout lines: the lines
/// tile the characters in order, every pair inside a line continues it, and
/// each is a layout line.
pub open spec fn lines_break_characters(
    r: Seq<LineRun>,
    a: Seq<PairAlignment>,
    detect_vertical: bool,
    char_count: int,
) -> bool {
    if char_count == 0 {
        r.len() == 0
    } else {
        &&& runs_tile(r, a, detect_vertical, 0, char_count - 1)
        &&& forall|i: int| 0 <= i < r.len() ==> #[trigger] is_layout_line(a, detect_vertical, r[i])
    }
}

/// The line a group holds: its orientation, first and last character.
pub open spec fn group_run(g: LayoutLineGroup) -> LineRun {
    (g.orientation, g.char_indices@[0] as int, g.char_indices@.last() as int)
}

proof fn lemma_line_runs_are_layout_lines(a: Seq<PairAlignment>, detect_vertical: bool, s: int)
    requires
        0 <= s <= a.len(),
    ensures
        forall|i: int|
            0 <= i < line_runs(a, detect_vertical, s).len() ==> #[trigger] is_layout_line(
                a,
                detect_vertical,
                line_runs(a, detect_vertical, s)[i],
            ) && s <= line_runs(a, detect_vertical, s)[i].1 <= line_runs(a, detect_vertical, s)[i].2
                <= a.len(),
    decreases a.len() + 1 - s,
{
    let r = line_runs(a, detect_vertical, s);
    let o = if opens(a, detect_vertical, LayoutOrientation::Vertical, s) {
        LayoutOrientation::Vertical
    } else {
        LayoutOrientation::Horizontal
    };
    let e = if opens(a, detect_vertical, o, s) {
        lemma_extent_bounds(a, detect_vertical, o, s + 1);
        extent(a, detect_vertical, o, s + 1)
    } else {
        s
    };
    let head = seq![(o, s, e)];
    assert(r == head + line_runs(a, detect_vertical, e + 1));
    assert(is_layout_line(a, detect_vertical, r[0]));
    if e + 1 <= a.len() {
        lemma_line_runs_are_layout_lines(a, detect_vertical, e + 1);
        let rest = line_runs(a, detect_vertical, e + 1);
        assert forall|i: int| 0 <= i < r.len() implies #[trigger] is_layout_line(a, detect_vertical, r[i]) && s
            <= r[i].1 <= r[i].2 <= a.len() by {
            if i > 0 {
                assert(r[i] == rest[i - 1]);
            }
        }
    } else {
        assert(line_runs(a, detect_vertical, e + 1) == Seq::<LineRun>::empty());
        assert(r =~= head);
    }
}

/// A line that continues through the pairs `j..e` and stops at `e` ends at `e`.
proof fn lemma_extent_is_first_stop(
    a: Seq<PairAlignment>,
    detect_vertical: bool,
    o: LayoutOrientation,
    j: int,
    e: int,
)
    requires
        0 <= j <= e <= a.len(),
        forall|k: int| j <= k < e ==> continues(a, detect_vertical, o, k),
        e < a.len() ==> !continues(a, detect_vertical, o, e),
    ensures
        extent(a, detect_vertical, o, j) == e,
    decreases e - j,
{
    if j < e {
        lemma_extent_is_first_stop(a, detect_vertical, o, j + 1, e);
    }
}

proof fn lemma_layout_lines_from(a: Seq<PairAlignment>, detect_vertical: bool, r: Seq<LineRun>, s: int)
    requires
        0 <= s <= a.len(),
        runs_tile(r, a, detect_vertical, s, a.len() as int),
        forall|i: int| 0 <= i < r.len() ==> #[trigger] is_layout_line(a, detect_vertical, r[i]),
    ensures
        r == line_runs(a, detect_vertical, s),
    decreases a.len() + 1 - s,
{
    let head = r[0];
    let o = head.0;
    let e = head.2;
    if r.len() >= 2 {
        lemma_runs_end_within(r, a, detect_vertical, s);
    }
    assert(e <= a.len());
    assert(is_layout_line(a, detect_vertical, head));
    if head.1 < head.2 {
        assert forall|k: int| s + 1 <= k < e implies continues(a, detect_vertical, o, k) by {
            assert(continues(a, detect_vertical, r[0].0, k));
        }
        lemma_extent_is_first_stop(a, detect_vertical, o, s + 1, e);
        if o == LayoutOrientation::Horizontal {
            assert(!opens(a, detect_vertical, LayoutOrientation::Vertical, s));
        }
    }
    assert(line_runs(a, detect_vertical, s) == seq![head] + line_runs(a, detect_vertical, e + 1));
    let rest = r.drop_first();
    if r.len() == 1 {
        assert(e == a.len());
        assert(line_runs(a, detect_vertical, e + 1) == Seq::<LineRun>::empty());
        assert(r =~= seq![head]);
    } else {
        assert(r[0].2 + 1 == r[1].1);
        assert(e + 1 <= r[1].2);
        assert(runs_tile(rest, a, detect_vertical, e + 1, a.len() as int)) by {
            assert(rest[0] == r[1]);
            assert(rest.last() == r.last());
            assert forall|i: int| 0 <= i < rest.len() implies #[trigger] rest[i].1 <= rest[i].2 by {
                assert(rest[i] == r[i + 1]);
            }
            assert forall|i: int| 0 <= i < rest.len() - 1 implies #[trigger] rest[i].2 + 1 == rest[i + 1].1 by {
                assert(rest[i] == r[i + 1]);
                assert(rest[i + 1] == r[i + 2]);
            }
            assert forall|i: int, k: int|
                #![trigger rest[i], continues(a, detect_vertical, rest[i].0, k)]
                0 <= i < rest.len() && rest[i].1 <= k < rest[i].2 implies continues(
                a,
                detect_vertical,
                rest[i].0,
                k,
            ) by {
                assert(rest[i] == r[i + 1]);
                assert(continues(a, detect_vertical, r[i + 1].0, k));
            }
        }
        assert forall|i: int| 0 <= i < rest.len() implies #[trigger] is_layout_line(
            a,
            detect_vertical,
            rest[i],
        ) by {
            assert(rest[i] == r[i + 1]);
        }
        lemma_runs_end_within(r, a, detect_vertical, s);
        lemma_layout_lines_from(a, detect_vertical, rest, e + 1);
        assert(r =~= seq![head] + rest);
    }
}

proof fn lemma_runs_end_within(r: Seq<LineRun>, a: Seq<PairAlignment>, detect_vertical: bool, s: int)
    requires
        runs_tile(r, a, detect_vertical, s, a.len() as int),
        r.len() >= 2,
    ensures
        r[0].2 < a.len(),
{
    lemma_runs_rise(r, r.len() - 1);
}

proof fn lemma_runs_rise(r: Seq<LineRun>, i: int)
    requires
        r.len() >= 1,
        forall|j: int| 0 <= j < r.len() ==> #[trigger] r[j].1 <= r[j].2,
        forall|j: int| 0 <= j < r.len() - 1 ==> #[trigger] r[j].2 + 1 == r[j + 1].1,
        0 < i < r.len(),
    ensures
        r[0].2 < r[i].2,
    decreases i,
{
    assert(r[i - 1].2 + 1 == r[i].1);
    if i > 1 {
        lemma_runs_rise(r, i - 1);
    }
}

/// Layout lines are maximal and determined by the alignments: the lines
/// `group_layout_lines` gives break the characters into layout lines (each
/// line of two or more characters runs until the next pair stops it), and any
/// breakdown into layout lines is exactly those lines.
pub proof fn lemma_layout_lines_are_determined(
    a: Seq<PairAlignment>,
    detect_vertical: bool,
    char_count: int,
    r: Seq<LineRun>,
)
    requires
        char_count >= 0,
        char_count == 0 ==> a.len() == 0,
        char_count > 0 ==> a.len() + 1 == char_count,
    ensures
        lines_break_characters(layout_line_runs(a, detect_vertical, char_count), a, detect_vertical, char_count),
        lines_break_characters(r, a, detect_vertical, char_count) ==> r == layout_line_runs(
            a,
            detect_vertical,
            char_count,
        ),
{
    if char_count > 0 {
        lemma_line_runs_tile(a, detect_vertical, 0);
        lemma_line_runs_are_layout_lines(a, detect_vertical, 0);
        if lines_break_characters(r, a, detect_vertical, char_count) {
            lemma_layout_lines_from(a, detect_vertical, r, 0);
        }
    } else {
        if lines_break_characters(r, a, detect_vertical, char_count) {
            assert(r =~= Seq::<LineRun>::empty());
        }
    }
}

proof fn lemma_groups_break_characters(
    groups: Seq<LayoutLineGroup>,
    a: Seq<PairAlignment>,
    detect_vertical: bool,
    char_count: int,
)
    requires
        0 <= char_count <= usize::MAX,
        char_count == 0 ==> a.len() == 0,
        char_count > 0 ==> a.len() + 1 == char_count,
        groups_are_runs(groups, layout_line_runs(a, detect_vertical, char_count)),
    ensures
        forall|i: int|
            0 <= i < groups.len() ==> (#[trigger] groups[i]).char_indices@ == index_range(
                group_run(groups[i]).1,
                group_run(groups[i]).2 + 1,
            ),
        lines_break_characters(
            groups.map_values(|g: LayoutLineGroup| group_run(g)),
            a,
            detect_vertical,
            char_count,
        ),
{
    let runs = layout_line_runs(a, detect_vertical, char_count);
    lemma_layout_lines_are_determined(a, detect_vertical, char_count, runs);
    if char_count > 0 {
        lemma_line_runs_are_layout_lines(a, detect_vertical, 0);
    }
    assert forall|i: int| 0 <= i < groups.len() implies group_run(#[trigger] groups[i]) == runs[i] by {
        assert(group_is_run(groups[i], runs[i]));
        let r = runs[i];
        assert(runs == line_runs(a, detect_vertical, 0));
        assert(is_layout_line(a, detect_vertical, line_runs(a, detect_vertical, 0)[i]));
        assert(0 <= r.1 <= r.2 < usize::MAX);
        assert(groups[i].char_indices@[0] as int == r.1);
        assert(groups[i].char_indices@.last() as int == r.2);
    }
    assert(groups.map_values(|g: LayoutLineGroup| group_run(g)) =~= runs);
    assert forall|i: int| 0 <= i < groups.len() implies (#[trigger] groups[i]).char_indices@ == index_range(
        group_run(groups[i]).1,
        group_run(groups[i]).2 + 1,
    ) by {
        assert(group_is_run(groups[i], runs[i]));
        assert(group_run(groups[i]) == runs[i]);
    }
}

/// A family of layout objects, named as in the compatibility dictionaries.
#[derive(Debug, Clone, Copy, PartialEq, Eq, Structural)]
pub enum LayoutFamily {
    /// `textboxhorizontal`
    TextBoxHorizontal,
    /// `textboxvertical`
    TextBoxVertical,
    /// `textlinehorizontal`
    TextLineHorizontal,
    /// `textlinevertical`
    TextLineVertical,
    /// `char`
    Char,
}

/// The family name used as an object type.
pub open spec fn layout_family_text(f: LayoutFamily) -> Seq<char> {
    match f {
        LayoutFamily::TextBoxHorizontal => "textboxhorizontal"@,
        LayoutFamily::TextBoxVertical => "textboxvertical"@,
        LayoutFamily::TextLineHorizontal => "textlinehorizontal"@,
        LayoutFamily::TextLineVertical => "textlinevertical"@,
        LayoutFamily::Char => "char"@,
    }
}

impl LayoutFamily {
    /// The family name used as an object type.
    pub fn as_str(&self) -> (res: &'static str)
        ensures
            res@ == layout_family_text(*self),
    {
        match self {
            LayoutFamily::TextBoxHorizontal => "textboxhorizontal",
            LayoutFamily::TextBoxVertical => "textboxvertical",
            LayoutFamily::TextLineHorizontal => "textlinehorizontal",
            LayoutFamily::TextLineVertical => "textlinevertical",
            LayoutFamily::Char => "char",
        }
    }
}

/// The box family of an orientation.
pub open spec fn box_family(o: LayoutOrientation) -> LayoutFamily {
    match o {
        LayoutOrientation::Horizontal => LayoutFamily::TextBoxHorizontal,
        LayoutOrientation::Vertical => LayoutFamily::TextBoxVertical,
    }
}

/// The line family of an orientation.
pub open spec fn line_family(o: LayoutOrientation) -> LayoutFamily {
    match o {
        LayoutOrientation::Horizontal => LayoutFamily::TextLineHorizontal,
        LayoutOrientation::Vertical => LayoutFamily::TextLineVertical,
    }
}

fn box_family_of(o: LayoutOrientation) -> (res: LayoutFamily)
    ensures
        res == box_family(o),
{
    match o {
        LayoutOrientation::Horizontal => LayoutFamily::TextBoxHorizontal,
        LayoutOrientation::Vertical => LayoutFamily::TextBoxVertical,
    }
}

fn line_family_of(o: LayoutOrientation) -> (res: LayoutFamily)
    ensures
        res == line_family(o),
{
    match o {
        LayoutOrientation::Horizontal => LayoutFamily::TextLineHorizontal,
        LayoutOrientation::Vertical => LayoutFamily::TextLineVertical,
    }
}

/// A layout line as the layout planner reads it.
#[derive(Debug)]
pub struct LayoutLine {
    /// Orientation of the line.
    pub orientation: LayoutOrientation,
    /// Indices of the line's characters, in order.
    pub char_indices: Vec<usize>,
    /// The line's text is blank.
    pub empty: bool,
}

/// A layout box: its orientation and the indices of its lines, in order.
#[derive(Debug)]
pub struct LayoutBox {
    /// Orientation of the box.
    pub orientation: LayoutOrientation,
    /// Indices of the box's lines, in reading order.
    pub line_indices: Vec<usize>,
}

/// One step of laying out a page's objects: a box, or a line together with the
/// orientation whose line family it is reported under.
#[derive(Debug, Clone, Copy, PartialEq, Eq, Structural)]
pub enum LayoutVisit {
    /// The box with this index.
    Box(usize),
    /// The line with this index, reported under the line family of the orientation.
    Line(usize, LayoutOrientation),
}

/// Which layout objects are emitted, where, and in what order.
#[derive(Debug)]
pub struct LayoutObjectPlan {
    /// Indices of horizontal boxes, in emission order.
    pub horizontal_boxes: Vec<usize>,
    /// Indices of vertical boxes, in emission order.
    pub vertical_boxes: Vec<usize>,
    /// Indices of horizontal lines, in emission order.
    pub horizontal_lines: Vec<usize>,
    /// Indices of vertical lines, in emission order.
    pub vertical_lines: Vec<usize>,
    /// Character indices in layout reading order.
    pub ordered_char_indices: Vec<usize>,
    /// Object families in order of first emission, each once.
    pub family_order: Vec<LayoutFamily>,
}

/// The layout plan as spec values; `families` lists every emitted family,
/// repetitions included.
pub struct LayoutPlanSpec {
    pub horizontal_boxes: Seq<usize>,
    pub vertical_boxes: Seq<usize>,
    pub horizontal_lines: Seq<usize>,
    pub vertical_lines: Seq<usize>,
    pub chars: Seq<usize>,
    pub families: Seq<LayoutFamily>,
}

/// What one visit adds to the plan.
pub open spec fn visit_step(
    p: LayoutPlanSpec,
    v: LayoutVisit,
    lines: Seq<LayoutLine>,
    boxes: Seq<LayoutBox>,
) -> LayoutPlanSpec {
    match v {
        LayoutVisit::Box(b) => {
            let o = boxes[b as int].orientation;
            LayoutPlanSpec {
                horizontal_boxes: if o == LayoutOrientation::Horizontal {
                    p.horizontal_boxes.push(b)
                } else {
                    p.horizontal_boxes
                },
                vertical_boxes: if o == LayoutOrientation::Vertical {
                    p.vertical_boxes.push(b)
                } else {
                    p.vertical_boxes
                },
                families: p.families.push(box_family(o)),
                ..p
            }
        },
        LayoutVisit::Line(l, family_orientation) => {
            let o = lines[l as int].orientation;
            LayoutPlanSpec {
                horizontal_lines: if o == LayoutOrientation::Horizontal {
                    p.horizontal_lines.push(l)
                } else {
                    p.horizontal_lines
                },
                vertical_lines: if o == LayoutOrientation::Vertical {
                    p.vertical_lines.push(l)
                } else {
                    p.vertical_lines
                },
                chars: p.chars + lines[l as int].char_indices@,
                families: p.families.push(line_family(family_orientation)).push(LayoutFamily::Char),
                ..p
            }
        },
    }
}

/// The plan produced by a sequence of visits.
pub open spec fn plan_of(visits: Seq<LayoutVisit>, lines: Seq<LayoutLine>, boxes: Seq<LayoutBox>) -> LayoutPlanSpec
    decreases visits.len(),
{
    if visits.len() == 0 {
        LayoutPlanSpec {
            horizontal_boxes: Seq::empty(),
            vertical_boxes: Seq::empty(),
            horizontal_lines: Seq::empty(),
            vertical_lines: Seq::empty(),
            chars: Seq::empty(),
            families: Seq::empty(),
        }
    } else {
        visit_step(plan_of(visits.drop_last(), lines, boxes), visits.last(), lines, boxes)
    }
}

/// A box is visited, then each of its lines under the box's orientation.
pub open spec fn box_visits(b: usize, boxes: Seq<LayoutBox>) -> Seq<LayoutVisit> {
    seq![LayoutVisit::Box(b)] + boxes[b as int].line_indices@.map_values(
        |l: usize| LayoutVisit::Line(l, boxes[b as int].orientation),
    )
}

/// The visits of boxes in the given order.
pub open spec fn order_visits(order: Seq<usize>, boxes: Seq<LayoutBox>) -> Seq<LayoutVisit>
    decreases order.len(),
{
    if order.len() == 0 {
        Seq::empty()
    } else {
        order_visits(order.drop_last(), boxes) + box_visits(order.last(), boxes)
    }
}

/// The blank lines among the first `upto` lines, each under its own orientation.
pub open spec fn empty_line_visits(lines: Seq<LayoutLine>, upto: int) -> Seq<LayoutVisit>
    decreases upto,
{
    if upto <= 0 {
        Seq::empty()
    } else {
        empty_line_visits(lines, upto - 1) + if lines[upto - 1].empty {
            seq![LayoutVisit::Line((upto - 1) as usize, lines[upto - 1].orientation)]
        } else {
            Seq::empty()
        }
    }
}

/// All visits: boxes in reading order with their lines, then the blank lines.
pub open spec fn layout_visits(lines: Seq<LayoutLine>, boxes: Seq<LayoutBox>, order: Seq<usize>) -> Seq<LayoutVisit> {
    order_visits(order, boxes) + empty_line_visits(lines, lines.len() as int)
}

/// Every index the plan will follow is in range.
pub open spec fn layout_indices_in_range(lines: Seq<LayoutLine>, boxes: Seq<LayoutBox>, order: Seq<usize>) -> bool {
    &&& forall|i: int| 0 <= i < order.len() ==> #[trigger] order[i] < boxes.len()
    &&& forall|b: int, j: int|
        0 <= b < boxes.len() && 0 <= j < boxes[b].line_indices@.len() ==> #[trigger] boxes[b].line_indices@[j]
            < lines.len()
}

/// The exec plan matches the spec plan.
pub open spec fn plan_matches(plan: LayoutObjectPlan, p: LayoutPlanSpec) -> bool {
    &&& plan.horizontal_boxes@ == p.horizontal_boxes
    &&& plan.vertical_boxes@ == p.vertical_boxes
    &&& plan.horizontal_lines@ == p.horizontal_lines
    &&& plan.vertical_lines@ == p.vertical_lines
    &&& plan.ordered_char_indices@ == p.chars
    &&& plan.family_order@ == first_appearances(p.families)
}

fn contains_family(v: &Vec<LayoutFamily>, f: LayoutFamily) -> (res: bool)
    ensures
        res == v@.contains(f),
{
    let mut i: usize = 0;
    while i < v.len()
        invariant
            i <= v.len(),
            forall|j: int| 0 <= j < i ==> v@[j] != f,
        decreases v.len() - i,
    {
        if v[i] == f {
            return true;
        }
        i = i + 1;
    }
    false
}

fn push_family(order: &mut Vec<LayoutFamily>, f: LayoutFamily, Ghost(seen): Ghost<Seq<LayoutFamily>>)
    requires
        old(order)@ == first_appearances(seen),
    ensures
        final(order)@ == first_appearances(seen.push(f)),
{
    assert(seen.push(f).drop_last() =~= seen);
    if !contains_family(order, f) {
        order.push(f);
    }
}

fn append_indices(dst: &mut Vec<usize>, src: &Vec<usize>)
    ensures
        final(dst)@ == old(dst)@ + src@,
{
    let mut i: usize = 0;
    while i < src.len()
        invariant
            i <= src.len(),
            dst@ == old(dst)@ + src@.take(i as int),
        decreases src.len() - i,
    {
        dst.push(src[i]);
        i = i + 1;
        assert(dst@ =~= old(dst)@ + src@.take(i as int));
    }
    assert(src@.take(src.len() as int) =~= src@);
}

fn visit_line(
    plan: &mut LayoutObjectPlan,
    lines: &Vec<LayoutLine>,
    boxes: &Vec<LayoutBox>,
    l: usize,
    family_orientation: LayoutOrientation,
    Ghost(visits): Ghost<Seq<LayoutVisit>>,
)
    requires
        l < lines.len(),
        plan_matches(*old(plan), plan_of(visits, lines@, boxes@)),
    ensures
        plan_matches(
            *final(plan),
            plan_of(visits.push(LayoutVisit::Line(l, family_orientation)), lines@, boxes@),
        ),
{
    let ghost p = plan_of(visits, lines@, boxes@);
    assert(visits.push(LayoutVisit::Line(l, family_orientation)).drop_last() =~= visits);
    let line = &lines[l];
    push_family(&mut plan.family_order, line_family_of(family_orientation), Ghost(p.families));
    push_family(
        &mut plan.family_order,
        LayoutFamily::Char,
        Ghost(p.families.push(line_family(family_orientation))),
    );
    match line.orientation {
        LayoutOrientation::Horizontal => plan.horizontal_lines.push(l),
        LayoutOrientation::Vertical => plan.vertical_lines.push(l),
    }
    append_indices(&mut plan.ordered_char_indices, &line.char_indices);
}

/// Decide which layout boxes and lines are emitted, into which orientation
/// list, the reading order of the characters, and the order in which object
/// families first appear: boxes in `box_order`, each followed by its lines
/// (reported under the box's line family), then the blank lines in line order.
pub fn plan_layout_objects(lines: &Vec<LayoutLine>, boxes: &Vec<LayoutBox>, box_order: &Vec<usize>) -> (res:
    LayoutObjectPlan)
    requires
        layout_indices_in_range(lines@, boxes@, box_order@),
    ensures
        plan_matches(res, plan_of(layout_visits(lines@, boxes@, box_order@), lines@, boxes@)),
{
    let mut plan = LayoutObjectPlan {
        horizontal_boxes: Vec::new(),
        vertical_boxes: Vec::new(),
        horizontal_lines: Vec::new(),
        vertical_lines: Vec::new(),
        ordered_char_indices: Vec::new(),
        family_order: Vec::new(),
    };
    let ghost mut visits: Seq<LayoutVisit> = Seq::empty();
    let mut i: usize = 0;
    assert(box_order@.take(0) =~= Seq::<usize>::empty());
    assert(plan_matches(plan, plan_of(visits, lines@, boxes@)));
    while i < box_order.len()
        invariant
            i <= box_order.len(),
            layout_indices_in_range(lines@, boxes@, box_order@),
            visits == order_visits(box_order@.take(i as int), boxes@),
            plan_matches(plan, plan_of(visits, lines@, boxes@)),
        decreases box_order.len() - i,
    {
        let b = box_order[i];
        assert(b < boxes.len());
        let layout_box = &boxes[b];
        let o = layout_box.orientation;
        let ghost bv = box_visits(b, boxes@);
        proof {
            assert(box_order@.take(i + 1).drop_last() =~= box_order@.take(i as int));
            assert(visits.push(LayoutVisit::Box(b)).drop_last() =~= visits);
            assert(bv.take(1) =~= seq![LayoutVisit::Box(b)]);
        }
        push_family(&mut plan.family_order, box_family_of(o), Ghost(plan_of(visits, lines@, boxes@).families));
        match o {
            LayoutOrientation::Horizontal => plan.horizontal_boxes.push(b),
            LayoutOrientation::Vertical => plan.vertical_boxes.push(b),
        }
        proof {
            visits = visits.push(LayoutVisit::Box(b));
        }
        let mut j: usize = 0;
        while j < layout_box.line_indices.len()
            invariant
                i < box_order.len(),
                b == box_order@[i as int],
                b < boxes.len(),
                layout_box == &boxes@[b as int],
                o == layout_box.orientation,
                bv == box_visits(b, boxes@),
                j <= layout_box.line_indices.len(),
                layout_indices_in_range(lines@, boxes@, box_order@),
                visits == order_visits(box_order@.take(i as int), boxes@) + bv.take(j + 1),
                plan_matches(plan, plan_of(visits, lines@, boxes@)),
            decreases layout_box.line_indices.len() - j,
        {
            let l = layout_box.line_indices[j];
            assert(l < lines.len());
            visit_line(&mut plan, lines, boxes, l, o, Ghost(visits));
            proof {
                assert(bv[j + 1] == LayoutVisit::Line(l, o));
                assert(bv.take(j + 2) =~= bv.take(j + 1).push(LayoutVisit::Line(l, o)));
                visits = visits.push(LayoutVisit::Line(l, o));
            }
            j = j + 1;
        }
        proof {
            assert(bv.take(j + 1) =~= bv);
        }
        i = i + 1;
    }
    assert(box_order@.take(box_order.len() as int) =~= box_order@);
    let ghost base = visits;
    let mut k: usize = 0;
    assert(base + empty_line_visits(lines@, 0) =~= base);
    while k < lines.len()
        invariant
            k <= lines.len(),
            base == order_visits(box_order@, boxes@),
            visits == base + empty_line_visits(lines@, k as int),
            plan_matches(plan, plan_of(visits, lines@, boxes@)),
        decreases lines.len() - k,
    {
        if lines[k].empty {
            let o = lines[k].orientation;
            visit_line(&mut plan, lines, boxes, k, o, Ghost(visits));
            proof {
                assert(base + empty_line_visits(lines@, k + 1) =~= visits.push(LayoutVisit::Line(k, o)));
                visits = visits.push(LayoutVisit::Line(k, o));
            }
        } else {
            assert(base + empty_line_visits(lines@, k + 1) =~= visits);
        }
        k = k + 1;
    }
    plan
}

} // verus!
