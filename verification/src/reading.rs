//! The reading order of a laid-out page as a whole: grouping characters into
//! lines, merging lines into boxes and planning the emitted objects together
//! put every character in the reading order exactly once.

use vstd::multiset::Multiset;
use vstd::prelude::*;

use crate::boxes::{
    lemma_merged_boxes_cover_lines, lemma_merged_boxes_disjoint,
    lemma_merged_boxes_hold_nonblank_lines, named_lines_neighbor_themselves, merged_boxes,
    neighbors_in_range, neighbors_nonblank,
};
use crate::layout::{
    box_visits, empty_line_visits, layout_line_runs, layout_visits, lemma_layout_lines_tile_characters,
    order_visits, plan_of, LayoutBox, LayoutLine, LayoutVisit,
};
use crate::pages::index_range;

verus! {

/// The parts named by `picks`, one after another.
pub open spec fn flatten(parts: Seq<Seq<usize>>, picks: Seq<usize>) -> Seq<usize>
    decreases picks.len(),
{
    if picks.len() == 0 {
        Seq::empty()
    } else {
        flatten(parts, picks.drop_last()) + parts[picks.last() as int]
    }
}

/// The lines a sequence of visits emits, in order.
pub open spec fn visited_lines(visits: Seq<LayoutVisit>) -> Seq<usize>
    decreases visits.len(),
{
    if visits.len() == 0 {
        Seq::empty()
    } else {
        let before = visited_lines(visits.drop_last());
        match visits.last() {
            LayoutVisit::Line(l, _) => before.push(l),
            LayoutVisit::Box(_) => before,
        }
    }
}

/// The blank lines among the first `upto` lines, in order.
pub open spec fn blank_lines(lines: Seq<LayoutLine>, upto: int) -> Seq<usize>
    decreases upto,
{
    if upto <= 0 {
        Seq::empty()
    } else if lines[upto - 1].empty {
        blank_lines(lines, upto - 1).push((upto - 1) as usize)
    } else {
        blank_lines(lines, upto - 1)
    }
}

/// The characters of each line.
pub open spec fn line_chars(lines: Seq<LayoutLine>) -> Seq<Seq<usize>> {
    lines.map_values(|l: LayoutLine| l.char_indices@)
}

/// The lines of each box.
pub open spec fn box_lines(boxes: Seq<LayoutBox>) -> Seq<Seq<usize>> {
    boxes.map_values(|b: LayoutBox| b.line_indices@)
}

proof fn lemma_flatten_split(parts: Seq<Seq<usize>>, a: Seq<usize>, b: Seq<usize>)
    ensures
        flatten(parts, a + b) == flatten(parts, a) + flatten(parts, b),
    decreases b.len(),
{
    if b.len() == 0 {
        assert(a + b =~= a);
        assert(flatten(parts, a) + flatten(parts, b) =~= flatten(parts, a));
    } else {
        lemma_flatten_split(parts, a, b.drop_last());
        assert((a + b).drop_last() =~= a + b.drop_last());
        assert((a + b).last() == b.last());
        assert(flatten(parts, a + b) =~= flatten(parts, a) + flatten(parts, b));
    }
}

proof fn lemma_flatten_permutation(parts: Seq<Seq<usize>>, a: Seq<usize>, b: Seq<usize>)
    requires
        a.to_multiset() == b.to_multiset(),
    ensures
        flatten(parts, a).to_multiset() == flatten(parts, b).to_multiset(),
    decreases a.len(),
{
    broadcast use vstd::seq_lib::group_to_multiset_ensures, vstd::seq_lib::lemma_multiset_commutative;
    broadcast use vstd::multiset::group_multiset_axioms;

    if a.len() == 0 {
        assert(a.to_multiset().len() == 0);
        assert(b.to_multiset().len() == b.len());
        assert(b.len() == 0);
        assert(b =~= a);
    } else {
        let x = a.last();
        let a1 = a.drop_last();
        assert(a1.push(x) =~= a);
        assert(a.contains(x));
        assert(a.to_multiset().count(x) > 0);
        assert(b.contains(x));
        let p = choose|p: int| 0 <= p < b.len() && b[p] == x;
        let b1 = b.remove(p);
        assert(b1.to_multiset() == b.to_multiset().remove(x));
        assert(a1.to_multiset() =~= b1.to_multiset());
        lemma_flatten_permutation(parts, a1, b1);
        let b0 = b.subrange(0, p);
        let b2 = b.subrange(p + 1, b.len() as int);
        assert(b =~= b0 + seq![x] + b2);
        assert(b1 =~= b0 + b2);
        lemma_flatten_split(parts, b0 + seq![x], b2);
        lemma_flatten_split(parts, b0, seq![x]);
        lemma_flatten_split(parts, b0, b2);
        assert(seq![x].drop_last() =~= Seq::<usize>::empty());
        assert(flatten(parts, seq![x].drop_last()) == Seq::<usize>::empty());
        assert(Seq::<usize>::empty() + parts[x as int] =~= parts[x as int]);
        assert(flatten(parts, seq![x]) == parts[x as int]);
        assert(flatten(parts, a).to_multiset() =~= flatten(parts, b).to_multiset());
    }
}

proof fn lemma_flatten_pointwise(p1: Seq<Seq<usize>>, p2: Seq<Seq<usize>>, picks: Seq<usize>)
    requires
        forall|k: int|
            0 <= k < picks.len() ==> (#[trigger] p1[picks[k] as int]).to_multiset() == p2[picks[k] as int].to_multiset(),
    ensures
        flatten(p1, picks).to_multiset() == flatten(p2, picks).to_multiset(),
    decreases picks.len(),
{
    broadcast use vstd::seq_lib::lemma_multiset_commutative;

    if picks.len() > 0 {
        let d = picks.drop_last();
        assert forall|k: int| 0 <= k < d.len() implies (#[trigger] p1[d[k] as int]).to_multiset()
            == p2[d[k] as int].to_multiset() by {
            assert(d[k] == picks[k]);
        }
        lemma_flatten_pointwise(p1, p2, d);
        assert(p1[picks[picks.len() - 1] as int].to_multiset() == p2[picks[picks.len() - 1] as int].to_multiset());
    }
}

proof fn lemma_distinct_count(s: Seq<usize>, x: usize)
    requires
        s.no_duplicates(),
    ensures
        s.to_multiset().count(x) == if s.contains(x) {
            1nat
        } else {
            0nat
        },
    decreases s.len(),
{
    broadcast use vstd::seq_lib::group_to_multiset_ensures;
    broadcast use vstd::multiset::group_multiset_axioms;

    if s.len() > 0 {
        let d = s.drop_last();
        assert(d.push(s.last()) =~= s);
        lemma_distinct_count(d, x);
        if d.contains(x) {
            let k = choose|k: int| 0 <= k < d.len() && d[k] == x;
            assert(s[k] == x);
            if x == s.last() {
                assert(s[s.len() - 1] == x);
            }
        }
        if s.contains(x) && x != s.last() {
            let k = choose|k: int| 0 <= k < s.len() && s[k] == x;
            assert(d[k] == x);
        }
    }
}

proof fn lemma_visited_split(a: Seq<LayoutVisit>, b: Seq<LayoutVisit>)
    ensures
        visited_lines(a + b) == visited_lines(a) + visited_lines(b),
    decreases b.len(),
{
    if b.len() == 0 {
        assert(a + b =~= a);
        assert(visited_lines(a) + visited_lines(b) =~= visited_lines(a));
    } else {
        lemma_visited_split(a, b.drop_last());
        assert((a + b).drop_last() =~= a + b.drop_last());
        assert((a + b).last() == b.last());
        match b.last() {
            LayoutVisit::Line(l, _) => {
                assert(visited_lines(a + b) =~= visited_lines(a) + visited_lines(b));
            },
            LayoutVisit::Box(_) => {},
        }
    }
}

proof fn lemma_visited_line_map(s: Seq<usize>, o: crate::layout::LayoutOrientation)
    ensures
        visited_lines(s.map_values(|l: usize| LayoutVisit::Line(l, o))) == s,
    decreases s.len(),
{
    if s.len() > 0 {
        lemma_visited_line_map(s.drop_last(), o);
        let m = s.map_values(|l: usize| LayoutVisit::Line(l, o));
        assert(m.drop_last() =~= s.drop_last().map_values(|l: usize| LayoutVisit::Line(l, o)));
        assert(s.drop_last().push(s.last()) =~= s);
    } else {
        assert(s.map_values(|l: usize| LayoutVisit::Line(l, o)) =~= Seq::<LayoutVisit>::empty());
    }
}

proof fn lemma_visited_order(order: Seq<usize>, boxes: Seq<LayoutBox>)
    requires
        forall|k: int| 0 <= k < order.len() ==> #[trigger] order[k] < boxes.len(),
    ensures
        visited_lines(order_visits(order, boxes)) == flatten(box_lines(boxes), order),
    decreases order.len(),
{
    if order.len() > 0 {
        let d = order.drop_last();
        assert forall|k: int| 0 <= k < d.len() implies #[trigger] d[k] < boxes.len() by {
            assert(d[k] == order[k]);
        }
        lemma_visited_order(d, boxes);
        let b = order.last();
        assert(order[order.len() - 1] < boxes.len());
        lemma_visited_split(order_visits(d, boxes), box_visits(b, boxes));
        let lines = boxes[b as int].line_indices@;
        let o = boxes[b as int].orientation;
        lemma_visited_line_map(lines, o);
        lemma_visited_split(seq![LayoutVisit::Box(b)], lines.map_values(|l: usize| LayoutVisit::Line(l, o)));
        assert(seq![LayoutVisit::Box(b)].drop_last() =~= Seq::<LayoutVisit>::empty());
        assert(seq![LayoutVisit::Box(b)].last() == LayoutVisit::Box(b));
        assert(visited_lines(Seq::<LayoutVisit>::empty()) == Seq::<usize>::empty());
        assert(visited_lines(seq![LayoutVisit::Box(b)]) == Seq::<usize>::empty());
        assert(Seq::<usize>::empty() + lines =~= lines);
        assert(box_lines(boxes)[b as int] == lines);
    }
}

proof fn lemma_visited_blank(lines: Seq<LayoutLine>, u: int)
    requires
        0 <= u <= lines.len(),
    ensures
        visited_lines(empty_line_visits(lines, u)) == blank_lines(lines, u),
    decreases u,
{
    if u > 0 {
        lemma_visited_blank(lines, u - 1);
        let tail = if lines[u - 1].empty {
            seq![LayoutVisit::Line((u - 1) as usize, lines[u - 1].orientation)]
        } else {
            Seq::empty()
        };
        lemma_visited_split(empty_line_visits(lines, u - 1), tail);
        if lines[u - 1].empty {
            assert(tail.drop_last() =~= Seq::<LayoutVisit>::empty());
            assert(visited_lines(Seq::<LayoutVisit>::empty()) == Seq::<usize>::empty());
            assert(Seq::<usize>::empty().push((u - 1) as usize) =~= seq![(u - 1) as usize]);
            assert(visited_lines(tail) =~= seq![(u - 1) as usize]);
            assert(blank_lines(lines, u - 1) + seq![(u - 1) as usize] =~= blank_lines(lines, u));
        } else {
            assert(visited_lines(tail) == Seq::<usize>::empty());
            assert(blank_lines(lines, u - 1) + Seq::<usize>::empty() =~= blank_lines(lines, u));
        }
    }
}

proof fn lemma_plan_chars(visits: Seq<LayoutVisit>, lines: Seq<LayoutLine>, boxes: Seq<LayoutBox>)
    requires
        forall|k: int|
            0 <= k < visited_lines(visits).len() ==> #[trigger] visited_lines(visits)[k] < lines.len(),
    ensures
        plan_of(visits, lines, boxes).chars == flatten(line_chars(lines), visited_lines(visits)),
    decreases visits.len(),
{
    if visits.len() > 0 {
        let d = visits.drop_last();
        let v = visited_lines(d);
        match visits.last() {
            LayoutVisit::Line(l, _) => {
                assert(visited_lines(visits) == v.push(l));
                assert forall|k: int| 0 <= k < v.len() implies #[trigger] v[k] < lines.len() by {
                    assert(visited_lines(visits)[k] == v[k]);
                }
                lemma_plan_chars(d, lines, boxes);
                assert(v.push(l).drop_last() =~= v);
                assert(visited_lines(visits)[v.len() as int] == l);
                assert(line_chars(lines)[l as int] == lines[l as int].char_indices@);
            },
            LayoutVisit::Box(_) => {
                assert(visited_lines(visits) == v);
                lemma_plan_chars(d, lines, boxes);
            },
        }
    }
}

proof fn lemma_lines_flatten_to_characters(
    runs: Seq<(crate::layout::LayoutOrientation, int, int)>,
    lines: Seq<LayoutLine>,
    k: int,
)
    requires
        1 <= k <= runs.len(),
        lines.len() == runs.len(),
        runs[0].1 == 0,
        forall|i: int| 0 <= i < runs.len() ==> #[trigger] runs[i].1 <= runs[i].2,
        forall|i: int| 0 <= i < runs.len() - 1 ==> #[trigger] runs[i].2 + 1 == runs[i + 1].1,
        forall|i: int|
            0 <= i < lines.len() ==> (#[trigger] lines[i]).char_indices@ == index_range(
                runs[i].1,
                runs[i].2 + 1,
            ),
        forall|i: int| 0 <= i < runs.len() ==> 0 <= #[trigger] runs[i].1 && runs[i].2 < usize::MAX,
        runs.len() <= usize::MAX,
    ensures
        flatten(line_chars(lines), index_range(0, k)) == index_range(0, runs[k - 1].2 + 1),
    decreases k,
{
    let parts = line_chars(lines);
    let picks = index_range(0, k);
    assert(picks.drop_last() =~= index_range(0, k - 1));
    assert(picks.last() == (k - 1) as usize);
    assert(parts[k - 1] == lines[k - 1].char_indices@);
    assert(flatten(parts, picks) == flatten(parts, index_range(0, k - 1)) + parts[k - 1]);
    assert(lines[k - 1].char_indices@ == index_range(runs[k - 1].1, runs[k - 1].2 + 1));
    if k == 1 {
        assert(index_range(0, 0) =~= Seq::<usize>::empty());
        assert(flatten(parts, Seq::<usize>::empty()) == Seq::<usize>::empty());
        assert(Seq::<usize>::empty() + parts[0] =~= parts[0]);
    } else {
        lemma_lines_flatten_to_characters(runs, lines, k - 1);
        assert(runs[k - 2].2 + 1 == runs[k - 1].1);
        assert(index_range(0, runs[k - 2].2 + 1) + index_range(runs[k - 1].1, runs[k - 1].2 + 1)
            =~= index_range(0, runs[k - 1].2 + 1));
    }
}

proof fn lemma_runs_bounds(runs: Seq<(crate::layout::LayoutOrientation, int, int)>, last: int, i: int)
    requires
        runs.len() >= 1,
        runs[0].1 == 0,
        runs[runs.len() - 1].2 == last,
        forall|j: int| 0 <= j < runs.len() ==> #[trigger] runs[j].1 <= runs[j].2,
        forall|j: int| 0 <= j < runs.len() - 1 ==> #[trigger] runs[j].2 + 1 == runs[j + 1].1,
        0 <= i < runs.len(),
    ensures
        i <= runs[i].1,
        runs[i].2 <= last,
    decreases runs.len() - i,
{
    lemma_runs_lower(runs, i);
    if i < runs.len() - 1 {
        lemma_runs_bounds(runs, last, i + 1);
        assert(runs[i].2 + 1 == runs[i + 1].1);
    }
}

proof fn lemma_runs_lower(runs: Seq<(crate::layout::LayoutOrientation, int, int)>, i: int)
    requires
        runs.len() >= 1,
        runs[0].1 == 0,
        forall|j: int| 0 <= j < runs.len() ==> #[trigger] runs[j].1 <= runs[j].2,
        forall|j: int| 0 <= j < runs.len() - 1 ==> #[trigger] runs[j].2 + 1 == runs[j + 1].1,
        0 <= i < runs.len(),
    ensures
        i <= runs[i].1,
    decreases i,
{
    if i > 0 {
        lemma_runs_lower(runs, i - 1);
        assert(runs[i - 1].2 + 1 == runs[i].1);
    }
}

proof fn lemma_range_count(n: int, x: usize)
    requires
        0 <= n <= usize::MAX,
    ensures
        index_range(0, n).to_multiset().count(x) == if x < n {
            1nat
        } else {
            0nat
        },
{
    let r = index_range(0, n);
    assert forall|i: int, j: int| 0 <= i < r.len() && 0 <= j < r.len() && i != j implies r[i] != r[j] by {}
    lemma_distinct_count(r, x);
    if x < n {
        assert(r[x as int] == x);
    }
}

proof fn lemma_blank_count(lines: Seq<LayoutLine>, u: int, x: usize)
    requires
        0 <= u <= lines.len(),
        u <= usize::MAX,
    ensures
        blank_lines(lines, u).to_multiset().count(x) == if x < u && lines[x as int].empty {
            1nat
        } else {
            0nat
        },
    decreases u,
{
    broadcast use vstd::seq_lib::group_to_multiset_ensures;
    broadcast use vstd::multiset::group_multiset_axioms;

    if u <= 0 {
        assert(blank_lines(lines, u).to_multiset() =~= Multiset::<usize>::empty());
    } else {
        lemma_blank_count(lines, u - 1, x);
    }
}

proof fn lemma_boxes_count(parts: Seq<Seq<usize>>, k: int, x: usize)
    requires
        0 <= k <= parts.len(),
        parts.len() <= usize::MAX,
        forall|b: int| 0 <= b < parts.len() ==> (#[trigger] parts[b]).no_duplicates(),
        forall|b1: int, b2: int, y: usize|
            0 <= b1 < parts.len() && 0 <= b2 < parts.len() && b1 != b2 && #[trigger] parts[b1].contains(y)
                ==> !#[trigger] parts[b2].contains(y),
    ensures
        flatten(parts, index_range(0, k)).to_multiset().count(x) == if exists|b: int|
            0 <= b < k && #[trigger] parts[b].contains(x) {
            1nat
        } else {
            0nat
        },
    decreases k,
{
    broadcast use vstd::seq_lib::lemma_multiset_commutative;
    broadcast use vstd::multiset::group_multiset_axioms;

    if k == 0 {
        assert(index_range(0, 0) =~= Seq::<usize>::empty());
        assert(flatten(parts, Seq::<usize>::empty()).to_multiset() =~= Multiset::<usize>::empty()) by {
            broadcast use vstd::seq_lib::group_to_multiset_ensures;
        }
    } else {
        lemma_boxes_count(parts, k - 1, x);
        let picks = index_range(0, k);
        assert(picks.drop_last() =~= index_range(0, k - 1));
        assert(picks.last() == (k - 1) as usize);
        lemma_distinct_count(parts[k - 1], x);
        if parts[k - 1].contains(x) {
            assert forall|b: int| 0 <= b < k - 1 implies !#[trigger] parts[b].contains(x) by {}
        }
        if exists|b: int| 0 <= b < k && #[trigger] parts[b].contains(x) {
            let b = choose|b: int| 0 <= b < k && #[trigger] parts[b].contains(x);
            if b < k - 1 {
                assert(!parts[k - 1].contains(x));
            }
        }
    }
}

/// Which lines are blank.
pub open spec fn line_blanks(lines: Seq<LayoutLine>) -> Seq<bool> {
    lines.map_values(|l: LayoutLine| l.empty)
}

/// The reading order of a laid-out page is a permutation of its characters:
/// when the lines are the groups of `group_layout_lines`, the boxes hold the
/// lines `merge_layout_boxes` merged (each box's lines in any order), and the
/// boxes are read in any order that takes each once, the characters of the
/// plan of `plan_layout_objects` are `0..char_count`, each exactly once.
/// The neighbour lists are those of a geometric search: only non-blank lines
/// are neighbours, and a line that is some line's neighbour is its own. Both
/// box orders the library gives, `BoxClusters::reading_order` and
/// `order_by_keys`, take each box once.
pub proof fn lemma_reading_order_is_permutation(
    a: Seq<crate::layout::PairAlignment>,
    detect_vertical: bool,
    char_count: int,
    lines: Seq<LayoutLine>,
    neighbors: Seq<Seq<usize>>,
    boxes: Seq<LayoutBox>,
    order: Seq<usize>,
)
    requires
        char_count > 0,
        a.len() + 1 == char_count,
        char_count <= usize::MAX,
        lines.len() == layout_line_runs(a, detect_vertical, char_count).len(),
        forall|i: int|
            0 <= i < lines.len() ==> (#[trigger] lines[i]).char_indices@ == index_range(
                layout_line_runs(a, detect_vertical, char_count)[i].1,
                layout_line_runs(a, detect_vertical, char_count)[i].2 + 1,
            ),
        neighbors.len() == lines.len(),
        neighbors_in_range(neighbors, lines.len()),
        named_lines_neighbor_themselves(line_blanks(lines), neighbors),
        neighbors_nonblank(line_blanks(lines), neighbors),
        boxes.len() == merged_boxes(line_blanks(lines), neighbors).len(),
        boxes.len() <= usize::MAX,
        forall|b: int|
            0 <= b < boxes.len() ==> (#[trigger] boxes[b]).line_indices@.to_multiset() == merged_boxes(
                line_blanks(lines),
                neighbors,
            )[b].to_multiset(),
        order.to_multiset() == index_range(0, boxes.len() as int).to_multiset(),
    ensures
        plan_of(layout_visits(lines, boxes, order), lines, boxes).chars.to_multiset() == index_range(
            0,
            char_count,
        ).to_multiset(),
{
    broadcast use vstd::seq_lib::group_to_multiset_ensures, vstd::seq_lib::lemma_multiset_commutative;
    broadcast use vstd::multiset::group_multiset_axioms;

    let runs = layout_line_runs(a, detect_vertical, char_count);
    let n_lines = lines.len() as int;
    let blanks = line_blanks(lines);
    let merged = merged_boxes(blanks, neighbors);
    let nb = boxes.len() as int;
    lemma_layout_lines_tile_characters(a, detect_vertical, char_count);
    lemma_runs_bounds(runs, char_count - 1, n_lines - 1);
    assert forall|i: int| 0 <= i < runs.len() implies 0 <= #[trigger] runs[i].1 && runs[i].2 < usize::MAX by {
        lemma_runs_bounds(runs, char_count - 1, i);
    }
    assert(n_lines <= char_count);
    lemma_merged_boxes_cover_lines(blanks, neighbors);
    lemma_merged_boxes_disjoint(blanks, neighbors);
    lemma_merged_boxes_hold_nonblank_lines(blanks, neighbors);

    // The boxes are read each once.
    assert forall|k: int| 0 <= k < order.len() implies #[trigger] order[k] < nb by {
        assert(order.contains(order[k]));
        assert(order.to_multiset().count(order[k]) > 0);
        lemma_range_count(nb, order[k]);
    }
    let visits = layout_visits(lines, boxes, order);
    lemma_visited_split(order_visits(order, boxes), empty_line_visits(lines, n_lines));
    lemma_visited_order(order, boxes);
    lemma_visited_blank(lines, n_lines);
    let from_boxes = flatten(box_lines(boxes), order);
    let blank = blank_lines(lines, n_lines);
    let visited = visited_lines(visits);
    assert(visited == from_boxes + blank);
    lemma_flatten_permutation(box_lines(boxes), order, index_range(0, nb));
    assert forall|k: int| 0 <= k < index_range(0, nb).len() implies (#[trigger] box_lines(boxes)[index_range(
        0,
        nb,
    )[k] as int]).to_multiset() == merged[index_range(0, nb)[k] as int].to_multiset() by {
        assert(index_range(0, nb)[k] == k);
        assert(box_lines(boxes)[k] == boxes[k].line_indices@);
    }
    lemma_flatten_pointwise(box_lines(boxes), merged, index_range(0, nb));

    // Every line is visited exactly once.
    assert forall|x: usize| #[trigger] visited.to_multiset().count(x) == index_range(0, n_lines).to_multiset().count(x) by {
        lemma_boxes_count(merged, nb, x);
        lemma_blank_count(lines, n_lines, x);
        lemma_range_count(n_lines, x);
        if x < n_lines && !blanks[x as int] {
            let k = choose|k: int| 0 <= k < merged.len() && merged[k].contains(x);
        }
        if exists|b: int| 0 <= b < nb && #[trigger] merged[b].contains(x) {
            let b = choose|b: int| 0 <= b < nb && #[trigger] merged[b].contains(x);
            assert(x < n_lines && !blanks[x as int]);
        }
        if x < n_lines {
            assert(blanks[x as int] == lines[x as int].empty);
        }
    }
    assert(visited.to_multiset() =~= index_range(0, n_lines).to_multiset());

    // Hence every character is emitted exactly once.
    assert forall|k: int| 0 <= k < visited.len() implies #[trigger] visited[k] < n_lines by {
        assert(visited.contains(visited[k]));
        assert(visited.to_multiset().count(visited[k]) > 0);
        lemma_range_count(n_lines, visited[k]);
    }
    lemma_plan_chars(visits, lines, boxes);
    lemma_flatten_permutation(line_chars(lines), visited, index_range(0, n_lines));
    lemma_lines_flatten_to_characters(runs, lines, n_lines);
}

} // verus!
