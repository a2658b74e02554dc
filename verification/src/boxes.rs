//! Merging layout lines into text boxes.
//!
//! Lines are visited in order; each non-blank line opens a box holding itself,
//! its neighbouring lines (found geometrically by the caller) and the boxes
//! those neighbours already belonged to. Boxes are reported in the order of
//! their first line.

use vstd::prelude::*;

use crate::objects::first_appearances;

verus! {

/// The state of box merging: the box each line currently belongs to, and the
/// members of every box opened so far.
pub struct MergeState {
    pub line_boxes: Seq<Option<usize>>,
    pub members: Seq<Seq<usize>>,
}

/// Collect the neighbours `nbrs` in order, each followed by the members of the
/// box it belonged to, detaching each such neighbour from its box.
pub open spec fn gather(
    line_boxes: Seq<Option<usize>>,
    members: Seq<Seq<usize>>,
    nbrs: Seq<usize>,
) -> (Seq<usize>, Seq<Option<usize>>)
    decreases nbrs.len(),
{
    if nbrs.len() == 0 {
        (Seq::empty(), line_boxes)
    } else {
        let (list, lb) = gather(line_boxes, members, nbrs.drop_last());
        let n = nbrs.last();
        match lb[n as int] {
            Some(b) => (list.push(n) + members[b as int], lb.update(n as int, None)),
            None => (list.push(n), lb),
        }
    }
}

/// Point every line listed in `unique` at box `b`.
pub open spec fn assign(line_boxes: Seq<Option<usize>>, unique: Seq<usize>, b: usize) -> Seq<Option<usize>> {
    Seq::new(
        line_boxes.len(),
        |x: int|
            if unique.contains(x as usize) {
                Some(b)
            } else {
                line_boxes[x]
            },
    )
}

/// Visit line `i`: a blank line changes nothing; any other line opens a new box
/// of itself, its neighbours and their boxes, each line listed once.
pub open spec fn merge_step(
    st: MergeState,
    i: usize,
    empty: Seq<bool>,
    neighbors: Seq<Seq<usize>>,
) -> MergeState {
    if empty[i as int] {
        st
    } else {
        let (list, lb) = gather(st.line_boxes, st.members, neighbors[i as int]);
        let unique = first_appearances(seq![i] + list);
        MergeState {
            line_boxes: assign(lb, unique, st.members.len() as usize),
            members: st.members.push(unique),
        }
    }
}

/// The state after visiting lines `0..k` of `m` lines.
pub open spec fn merge_upto(m: nat, empty: Seq<bool>, neighbors: Seq<Seq<usize>>, k: int) -> MergeState
    decreases k,
{
    if k <= 0 {
        MergeState { line_boxes: Seq::new(m, |x: int| None::<usize>), members: Seq::empty() }
    } else {
        merge_step(merge_upto(m, empty, neighbors, k - 1), (k - 1) as usize, empty, neighbors)
    }
}

/// The boxes lines point to, in line order (repetitions included).
pub open spec fn present_boxes(line_boxes: Seq<Option<usize>>) -> Seq<usize>
    decreases line_boxes.len(),
{
    if line_boxes.len() == 0 {
        Seq::empty()
    } else {
        present_boxes(line_boxes.drop_last()) + match line_boxes.last() {
            Some(b) => seq![b],
            None => Seq::empty(),
        }
    }
}

/// The boxes that are reported, in order of their first line, and the members of each.
pub open spec fn merged_boxes(empty: Seq<bool>, neighbors: Seq<Seq<usize>>) -> Seq<Seq<usize>> {
    let st = merge_upto(empty.len(), empty, neighbors, empty.len() as int);
    first_appearances(present_boxes(st.line_boxes)).map_values(|b: usize| st.members[b as int])
}

/// The state is consistent for `m` lines: one entry per line, every box index
/// refers to an opened box, and every member is a line.
pub open spec fn merge_wf(st: MergeState, m: nat) -> bool {
    &&& st.line_boxes.len() == m
    &&& forall|x: int| 0 <= x < m ==> (#[trigger] st.line_boxes[x] matches Some(b) ==> b
        < st.members.len())
    &&& forall|b: int, j: int|
        0 <= b < st.members.len() && 0 <= j < st.members[b].len() ==> #[trigger] st.members[b][j] < m
}

/// Neighbour lists refer to lines.
pub open spec fn neighbors_in_range(neighbors: Seq<Seq<usize>>, m: nat) -> bool {
    forall|i: int, j: int|
        0 <= i < neighbors.len() && 0 <= j < neighbors[i].len() ==> #[trigger] neighbors[i][j] < m
}

proof fn lemma_gather_wf(
    line_boxes: Seq<Option<usize>>,
    members: Seq<Seq<usize>>,
    nbrs: Seq<usize>,
    m: nat,
)
    requires
        merge_wf(MergeState { line_boxes, members }, m),
        forall|j: int| 0 <= j < nbrs.len() ==> #[trigger] nbrs[j] < m,
    ensures
        merge_wf(MergeState { line_boxes: gather(line_boxes, members, nbrs).1, members }, m),
        forall|j: int|
            0 <= j < gather(line_boxes, members, nbrs).0.len() ==> #[trigger] gather(
                line_boxes,
                members,
                nbrs,
            ).0[j] < m,
    decreases nbrs.len(),
{
    if nbrs.len() > 0 {
        lemma_gather_wf(line_boxes, members, nbrs.drop_last(), m);
        let (list, lb) = gather(line_boxes, members, nbrs.drop_last());
        let n = nbrs.last();
        assert(n < m);
        match lb[n as int] {
            Some(b) => {
                let l2 = list.push(n) + members[b as int];
                assert forall|j: int| 0 <= j < l2.len() implies #[trigger] l2[j] < m by {
                    if j < list.len() {
                    } else if j == list.len() {
                    } else {
                        assert(l2[j] == members[b as int][j - list.len() - 1]);
                    }
                }
                let lb2 = lb.update(n as int, None);
                assert forall|x: int| 0 <= x < m implies (#[trigger] lb2[x] matches Some(c) ==> c
                    < members.len()) by {
                    if x != n {
                        assert(lb2[x] == lb[x]);
                    }
                }
            },
            None => {
                let l2 = list.push(n);
                assert forall|j: int| 0 <= j < l2.len() implies #[trigger] l2[j] < m by {
                    if j < list.len() {
                    }
                }
            },
        }
    }
}

proof fn lemma_first_appearances_elements<T>(s: Seq<T>, x: T)
    ensures
        first_appearances(s).contains(x) <==> s.contains(x),
{
    crate::objects::lemma_first_appearances(s);
}

proof fn lemma_merge_upto_wf(m: nat, empty: Seq<bool>, neighbors: Seq<Seq<usize>>, k: int)
    requires
        0 <= k <= m,
        empty.len() == m,
        neighbors.len() == m,
        neighbors_in_range(neighbors, m),
    ensures
        merge_wf(merge_upto(m, empty, neighbors, k), m),
        merge_upto(m, empty, neighbors, k).members.len() <= k,
    decreases k,
{
    if k > 0 {
        lemma_merge_upto_wf(m, empty, neighbors, k - 1);
        let st = merge_upto(m, empty, neighbors, k - 1);
        let i = (k - 1) as usize;
        if !empty[i as int] {
            assert forall|j: int| 0 <= j < neighbors[i as int].len() implies #[trigger] neighbors[i as int][j]
                < m by {}
            lemma_gather_wf(st.line_boxes, st.members, neighbors[i as int], m);
            let (list, lb) = gather(st.line_boxes, st.members, neighbors[i as int]);
            let full = seq![i] + list;
            let unique = first_appearances(full);
            let nb = st.members.len() as usize;
            let st2 = merge_upto(m, empty, neighbors, k);
            assert(st2.members == st.members.push(unique));
            assert forall|j: int| 0 <= j < unique.len() implies #[trigger] unique[j] < m by {
                assert(unique.contains(unique[j]));
                lemma_first_appearances_elements(full, unique[j]);
                let t = choose|t: int| 0 <= t < full.len() && full[t] == unique[j];
                if t > 0 {
                    assert(full[t] == list[t - 1]);
                }
            }
            assert forall|b: int, j: int|
                0 <= b < st2.members.len() && 0 <= j < st2.members[b].len() implies #[trigger] st2.members[b][j]
                < m by {
                if b < st.members.len() {
                    assert(st2.members[b] == st.members[b]);
                }
            }
            assert forall|x: int| 0 <= x < m implies (#[trigger] st2.line_boxes[x] matches Some(c)
                ==> c < st2.members.len()) by {
                if !unique.contains(x as usize) {
                    assert(st2.line_boxes[x] == lb[x]);
                }
            }
        }
    }
}

fn contains_index(v: &Vec<usize>, x: usize) -> (res: bool)
    ensures
        res == v@.contains(x),
{
    let mut i: usize = 0;
    while i < v.len()
        invariant
            i <= v.len(),
            forall|j: int| 0 <= j < i ==> v@[j] != x,
        decreases v.len() - i,
    {
        if v[i] == x {
            return true;
        }
        i = i + 1;
    }
    false
}

fn unique_in_order(list: &Vec<usize>) -> (res: Vec<usize>)
    ensures
        res@ == first_appearances(list@),
{
    let mut out: Vec<usize> = Vec::new();
    let mut i: usize = 0;
    while i < list.len()
        invariant
            i <= list.len(),
            out@ == first_appearances(list@.take(i as int)),
        decreases list.len() - i,
    {
        assert(list@.take(i + 1).drop_last() =~= list@.take(i as int));
        if !contains_index(&out, list[i]) {
            out.push(list[i]);
        }
        i = i + 1;
    }
    assert(list@.take(list.len() as int) =~= list@);
    out
}

fn copy_indices(v: &Vec<usize>) -> (res: Vec<usize>)
    ensures
        res@ == v@,
{
    let mut out: Vec<usize> = Vec::new();
    let mut i: usize = 0;
    while i < v.len()
        invariant
            i <= v.len(),
            out@ == v@.take(i as int),
        decreases v.len() - i,
    {
        out.push(v[i]);
        i = i + 1;
        assert(out@ =~= v@.take(i as int));
    }
    assert(v@.take(v.len() as int) =~= v@);
    out
}

/// The box members as spec values.
pub open spec fn members_view(v: Seq<Vec<usize>>) -> Seq<Seq<usize>> {
    v.map_values(|x: Vec<usize>| x@)
}

/// Merge layout lines into boxes.
///
/// `empty[i]` says whether line `i` is blank; `neighbors[i]` lists the lines
/// found next to line `i`, in search order. The result lists, for every box in
/// order of its first line, the box's lines in the order they were gathered.
pub fn merge_layout_boxes(empty: &Vec<bool>, neighbors: &Vec<Vec<usize>>) -> (res: Vec<Vec<usize>>)
    requires
        neighbors.len() == empty.len(),
        neighbors_in_range(members_view(neighbors@), empty.len() as nat),
    ensures
        members_view(res@) == merged_boxes(empty@, members_view(neighbors@)),
{
    let m = empty.len();
    let ghost nb = members_view(neighbors@);
    let mut line_boxes: Vec<Option<usize>> = Vec::new();
    let mut t: usize = 0;
    while t < m
        invariant
            t <= m,
            line_boxes@ == Seq::new(t as nat, |x: int| None::<usize>),
        decreases m - t,
    {
        line_boxes.push(None);
        t = t + 1;
        assert(line_boxes@ =~= Seq::new(t as nat, |x: int| None::<usize>));
    }
    let mut box_members: Vec<Vec<usize>> = Vec::new();
    let mut i: usize = 0;
    assert(members_view(box_members@) =~= Seq::<Seq<usize>>::empty());
    while i < m
        invariant
            m == empty.len(),
            neighbors.len() == m,
            nb == members_view(neighbors@),
            neighbors_in_range(nb, m as nat),
            i <= m,
            line_boxes@ == merge_upto(m as nat, empty@, nb, i as int).line_boxes,
            members_view(box_members@) == merge_upto(m as nat, empty@, nb, i as int).members,
            merge_wf(merge_upto(m as nat, empty@, nb, i as int), m as nat),
            box_members@.len() <= i,
        decreases m - i,
    {
        proof {
            lemma_merge_upto_wf(m as nat, empty@, nb, i + 1);
        }
        let ghost st = merge_upto(m as nat, empty@, nb, i as int);
        if !empty[i] {
            let nbrs = &neighbors[i];
            assert(nbrs@ == nb[i as int]);
            let mut list: Vec<usize> = Vec::new();
            list.push(i);
            let mut j: usize = 0;
            assert(nbrs@.take(0) =~= Seq::<usize>::empty());
            assert(list@ =~= seq![i] + gather(st.line_boxes, st.members, nbrs@.take(0)).0);
            while j < nbrs.len()
                invariant
                    m == empty.len(),
                    nb.len() == m,
                    neighbors_in_range(nb, m as nat),
                    i < m,
                    nbrs@ == nb[i as int],
                    j <= nbrs.len(),
                    members_view(box_members@) == st.members,
                    merge_wf(st, m as nat),
                    list@ == seq![i] + gather(st.line_boxes, st.members, nbrs@.take(j as int)).0,
                    line_boxes@ == gather(st.line_boxes, st.members, nbrs@.take(j as int)).1,
                decreases nbrs.len() - j,
            {
                proof {
                    assert(nbrs@.take(j + 1).drop_last() =~= nbrs@.take(j as int));
                    assert forall|q: int| 0 <= q < nbrs@.take(j as int).len() implies #[trigger] nbrs@.take(
                        j as int,
                    )[q] < m by {
                        assert(nb[i as int][q] < m);
                    }
                    lemma_gather_wf(st.line_boxes, st.members, nbrs@.take(j as int), m as nat);
                }
                let n = nbrs[j];
                assert(nb[i as int][j as int] < m);
                list.push(n);
                let slot = line_boxes[n];
                match slot {
                    Some(b) => {
                        line_boxes.set(n, None);
                        assert(box_members@[b as int]@ == st.members[b as int]);
                        let ghost before = list@;
                        let mut q: usize = 0;
                        while q < box_members[b].len()
                            invariant
                                b < box_members@.len(),
                                q <= box_members@[b as int].len(),
                                list@ == before + box_members@[b as int]@.take(q as int),
                            decreases box_members@[b as int].len() - q,
                        {
                            list.push(box_members[b][q]);
                            q = q + 1;
                            assert(list@ =~= before + box_members@[b as int]@.take(q as int));
                        }
                        assert(box_members@[b as int]@.take(q as int) =~= box_members@[b as int]@);
                        assert(list@ =~= seq![i] + gather(st.line_boxes, st.members, nbrs@.take(j + 1)).0);
                    },
                    None => {
                        assert(list@ =~= seq![i] + gather(st.line_boxes, st.members, nbrs@.take(j + 1)).0);
                    },
                }
                j = j + 1;
            }
            assert(nbrs@.take(nbrs.len() as int) =~= nbrs@);
            let unique = unique_in_order(&list);
            let box_index = box_members.len();
            let ghost lb = line_boxes@;
            let mut u: usize = 0;
            proof {
                lemma_merge_upto_wf(m as nat, empty@, nb, i as int);
                lemma_gather_wf(st.line_boxes, st.members, nbrs@, m as nat);
                assert forall|q: int| 0 <= q < unique@.len() implies #[trigger] unique@[q] < m by {
                    let full = seq![i] + gather(st.line_boxes, st.members, nbrs@).0;
                    assert(unique@.contains(unique@[q]));
                    lemma_first_appearances_elements(full, unique@[q]);
                    let t = choose|t: int| 0 <= t < full.len() && full[t] == unique@[q];
                    if t > 0 {
                        assert(full[t] == gather(st.line_boxes, st.members, nbrs@).0[t - 1]);
                    }
                }
            }
            while u < unique.len()
                invariant
                    u <= unique.len(),
                    lb.len() == m,
                    forall|q: int| 0 <= q < unique@.len() ==> #[trigger] unique@[q] < m,
                    line_boxes@ == Seq::new(
                        lb.len(),
                        |x: int|
                            if unique@.take(u as int).contains(x as usize) {
                                Some(box_index)
                            } else {
                                lb[x]
                            },
                    ),
                decreases unique.len() - u,
            {
                let member = unique[u];
                line_boxes.set(member, Some(box_index));
                u = u + 1;
                proof {
                    assert forall|x: int| 0 <= x < lb.len() implies #[trigger] line_boxes@[x] == (if unique@.take(
                        u as int,
                    ).contains(x as usize) {
                        Some(box_index)
                    } else {
                        lb[x]
                    }) by {
                        if x == member as int {
                            assert(unique@.take(u as int)[u - 1] == member);
                        } else {
                            if unique@.take(u as int).contains(x as usize) {
                                let w = choose|w: int|
                                    0 <= w < unique@.take(u as int).len() && unique@.take(
                                        u as int,
                                    )[w] == x as usize;
                                assert(w < u - 1);
                                assert(unique@.take(u - 1)[w] == x as usize);
                            }
                            let shorter = unique@.take(u - 1);
                            if shorter.contains(x as usize) {
                                let w = choose|w: int|
                                    0 <= w < shorter.len() && shorter[w] == x as usize;
                                assert(unique@.take(u as int)[w] == x as usize);
                            }
                        }
                    }
                    assert(line_boxes@ =~= Seq::new(
                        lb.len(),
                        |x: int|
                            if unique@.take(u as int).contains(x as usize) {
                                Some(box_index)
                            } else {
                                lb[x]
                            },
                    ));
                }
            }
            assert(unique@.take(unique@.len() as int) =~= unique@);
            box_members.push(unique);
            proof {
                assert(line_boxes@ =~= merge_upto(m as nat, empty@, nb, i + 1).line_boxes);
                assert(members_view(box_members@) =~= merge_upto(m as nat, empty@, nb, i + 1).members);
            }
        }
        i = i + 1;
    }
    let ghost fin = merge_upto(m as nat, empty@, nb, m as int);
    let mut done: Vec<bool> = Vec::new();
    let mut d: usize = 0;
    while d < box_members.len()
        invariant
            d <= box_members.len(),
            done@ == Seq::new(d as nat, |x: int| false),
        decreases box_members.len() - d,
    {
        done.push(false);
        d = d + 1;
        assert(done@ =~= Seq::new(d as nat, |x: int| false));
    }
    let mut out: Vec<Vec<usize>> = Vec::new();
    let mut x: usize = 0;
    assert(line_boxes@.take(0) =~= Seq::<Option<usize>>::empty());
    while x < m
        invariant
            x <= m,
            line_boxes@ == fin.line_boxes,
            members_view(box_members@) == fin.members,
            merge_wf(fin, m as nat),
            done@.len() == box_members@.len(),
            forall|b: int| 0 <= b < done@.len() ==> (done@[b] <==> first_appearances(
                present_boxes(fin.line_boxes.take(x as int)),
            ).contains(b as usize)),
            members_view(out@) == first_appearances(present_boxes(fin.line_boxes.take(x as int))).map_values(
                |b: usize| fin.members[b as int],
            ),
        decreases m - x,
    {
        let ghost prev = first_appearances(present_boxes(fin.line_boxes.take(x as int)));
        let ghost old_done = done@;
        proof {
            assert(fin.line_boxes.take(x + 1).drop_last() =~= fin.line_boxes.take(x as int));
        }
        let slot = line_boxes[x];
        match slot {
            Some(b) => {
                proof {
                    assert(fin.line_boxes[x as int] matches Some(bb) ==> bb < fin.members.len());
                    assert(box_members@[b as int]@ == fin.members[b as int]);
                    assert(present_boxes(fin.line_boxes.take(x + 1)) == present_boxes(
                        fin.line_boxes.take(x as int),
                    ) + seq![b]);
                    assert((present_boxes(fin.line_boxes.take(x as int)) + seq![b]).drop_last()
                        =~= present_boxes(fin.line_boxes.take(x as int)));
                }
                if !done[b] {
                    done.set(b, true);
                    let copied = copy_indices(&box_members[b]);
                    let ghost before_out = out@;
                    out.push(copied);
                    proof {
                        assert(out@ == before_out.push(copied));
                        assert(copied@ == fin.members[b as int]);
                        let target = prev.push(b).map_values(|c: usize| fin.members[c as int]);
                        assert(members_view(before_out) == prev.map_values(
                            |c: usize| fin.members[c as int],
                        ));
                        assert(members_view(before_out).len() == before_out.len());
                        assert(before_out.len() == prev.len());
                        assert forall|k: int| 0 <= k < out@.len() implies #[trigger] members_view(
                            out@,
                        )[k] == target[k] by {
                            if k < before_out.len() {
                                assert(members_view(out@)[k] == out@[k]@);
                                assert(out@[k] == before_out[k]);
                                assert(members_view(before_out)[k] == before_out[k]@);
                                assert(prev.push(b)[k] == prev[k]);
                            } else {
                                assert(prev.push(b)[k] == b);
                            }
                        }
                        assert(members_view(out@) =~= target);
                    }
                }
                proof {
                    let now = first_appearances(present_boxes(fin.line_boxes.take(x + 1)));
                    assert(now == if prev.contains(b) {
                        prev
                    } else {
                        prev.push(b)
                    });
                    assert(done@ == if old_done[b as int] {
                        old_done
                    } else {
                        old_done.update(b as int, true)
                    });
                    assert(old_done[b as int] <==> prev.contains(b));
                    assert forall|c: int| 0 <= c < done@.len() implies (done@[c] <==> now.contains(
                        c as usize,
                    )) by {
                        assert(old_done[c] <==> prev.contains(c as usize));
                        if !prev.contains(b) {
                            assert(now == prev.push(b));
                            if c == b as int {
                                assert(now[prev.len() as int] == b);
                                assert(done@[c]);
                            } else {
                                assert(done@[c] == old_done[c]);
                                assert(c < done.len());
                                assert(c as usize as int == c);
                                assert((c as usize) != b);
                                if now.contains(c as usize) {
                                    let w = choose|w: int| 0 <= w < now.len() && now[w] == c as usize;
                                    if w == prev.len() {
                                        assert(now[w] == b);
                                    } else {
                                        assert(prev[w] == c as usize);
                                    }
                                }
                                if prev.contains(c as usize) {
                                    let w = choose|w: int| 0 <= w < prev.len() && prev[w] == c as usize;
                                    assert(now[w] == c as usize);
                                }
                            }
                        } else {
                            assert(now == prev);
                            assert(done@ == old_done);
                        }
                    }
                }
            },
            None => {
                proof {
                    assert(present_boxes(fin.line_boxes.take(x + 1)) =~= present_boxes(
                        fin.line_boxes.take(x as int),
                    ));
                }
            },
        }
        x = x + 1;
    }
    assert(fin.line_boxes.take(m as int) =~= fin.line_boxes);
    out
}

/// What gathering the neighbours does: entries are only ever cleared, and only
/// for neighbours; every neighbour is listed together with the members of the
/// box it belonged to; and every listed line is a neighbour or a member of a
/// neighbour's box.
proof fn lemma_gather_facts(
    line_boxes: Seq<Option<usize>>,
    members: Seq<Seq<usize>>,
    nbrs: Seq<usize>,
    m: nat,
)
    requires
        merge_wf(MergeState { line_boxes, members }, m),
        forall|j: int| 0 <= j < nbrs.len() ==> #[trigger] nbrs[j] < m,
    ensures
        ({
            let (list, lb) = gather(line_boxes, members, nbrs);
            &&& lb.len() == m
            &&& forall|x: int|
                0 <= x < m ==> (#[trigger] lb[x] == line_boxes[x] || (lb[x] is None
                    && nbrs.contains(x as usize)))
            &&& forall|n: usize|
                #[trigger] nbrs.contains(n) ==> list.contains(n) && (line_boxes[n as int] matches Some(
                    b,
                ) ==> forall|y: usize| #[trigger] members[b as int].contains(y) ==> list.contains(y))
            &&& forall|y: usize|
                #[trigger] list.contains(y) ==> exists|n: usize|
                    #[trigger] nbrs.contains(n) && (y == n || (line_boxes[n as int] matches Some(b)
                        && members[b as int].contains(y)))
        }),
    decreases nbrs.len(),
{
    if nbrs.len() > 0 {
        let d = nbrs.drop_last();
        lemma_gather_facts(line_boxes, members, d, m);
        lemma_gather_wf(line_boxes, members, d, m);
        let (list0, lb0) = gather(line_boxes, members, d);
        let n = nbrs.last();
        assert(n < m);
        let (list, lb) = gather(line_boxes, members, nbrs);
        assert forall|z: usize| #[trigger] d.contains(z) implies nbrs.contains(z) by {
            let w = choose|w: int| 0 <= w < d.len() && d[w] == z;
            assert(nbrs[w] == z);
        }
        assert(nbrs.contains(n)) by {
            assert(nbrs[nbrs.len() - 1] == n);
        }
        assert forall|z: usize| #[trigger] list0.contains(z) implies list.contains(z) by {
            let w = choose|w: int| 0 <= w < list0.len() && list0[w] == z;
            assert(list[w] == z);
        }
        assert(list.contains(n)) by {
            assert(list[list0.len() as int] == n);
        }
        // Cleared entries.
        assert forall|x: int| 0 <= x < m implies (#[trigger] lb[x] == line_boxes[x] || (lb[x] is None
            && nbrs.contains(x as usize))) by {
            if lb0[x] == line_boxes[x] {
            } else {
                assert(d.contains(x as usize));
            }
        }
        // The last neighbour: its current entry is the one it started with unless it
        // was already gathered earlier.
        assert forall|q: usize| #[trigger] nbrs.contains(q) implies list.contains(q) && (
        line_boxes[q as int] matches Some(b) ==> forall|y: usize| #[trigger] members[b as int].contains(
            y,
        ) ==> list.contains(y)) by {
            if d.contains(q) {
            } else {
                let w = choose|w: int| 0 <= w < nbrs.len() && nbrs[w] == q;
                if w < d.len() {
                    assert(d[w] == q);
                }
                assert(q == n);
                match line_boxes[q as int] {
                    Some(b) => {
                        assert(lb0[q as int] == line_boxes[q as int]);
                        assert forall|y: usize| #[trigger] members[b as int].contains(y) implies list.contains(
                            y,
                        ) by {
                            let v = choose|v: int| 0 <= v < members[b as int].len() && members[b as int][v]
                                == y;
                            assert(list[list0.len() + 1 + v] == y);
                        }
                    },
                    None => {},
                }
            }
        }
        assert forall|y: usize| #[trigger] list.contains(y) implies exists|q: usize|
            #[trigger] nbrs.contains(q) && (y == q || (line_boxes[q as int] matches Some(b)
                && members[b as int].contains(y))) by {
            let w = choose|w: int| 0 <= w < list.len() && list[w] == y;
            if w < list0.len() {
                assert(list0[w] == y);
                assert(list0.contains(y));
                let q = choose|q: usize|
                    #[trigger] d.contains(q) && (y == q || (line_boxes[q as int] matches Some(b)
                        && members[b as int].contains(y)));
                assert(nbrs.contains(q));
            } else if w == list0.len() {
                assert(y == n);
            } else {
                match lb0[n as int] {
                    Some(b) => {
                        assert(lb0[n as int] == line_boxes[n as int]) by {
                            if lb0[n as int] != line_boxes[n as int] {
                                assert(lb0[n as int] is None);
                            }
                        }
                        assert(members[b as int][w - list0.len() - 1] == y);
                        assert(members[b as int].contains(y));
                    },
                    None => {},
                }
            }
        }
    }
}

/// Every line points to a box that lists it.
pub open spec fn boxes_hold_their_lines(st: MergeState, m: nat) -> bool {
    forall|x: int|
        0 <= x < m ==> (#[trigger] st.line_boxes[x] matches Some(b) ==> st.members[b as int].contains(
            x as usize,
        ))
}

/// Every member of a box some line points to points to that box too.
pub open spec fn live_boxes_closed(st: MergeState, m: nat) -> bool {
    forall|x: int, y: usize, b: usize|
        0 <= x < m && #[trigger] st.line_boxes[x] == Some(b) && #[trigger] st.members[b as int].contains(y)
            ==> st.line_boxes[y as int] == Some(b)
}

/// Every non-blank line among the first `k` points to a box.
pub open spec fn visited_lines_boxed(st: MergeState, empty: Seq<bool>, k: int) -> bool {
    forall|j: int| 0 <= j < k && !#[trigger] empty[j] ==> st.line_boxes[j] is Some
}

/// Whether some line lists `x` among its neighbours.
pub open spec fn is_named(neighbors: Seq<Seq<usize>>, x: usize) -> bool {
    exists|i: int, j: int| 0 <= i < neighbors.len() && 0 <= j < neighbors[i].len() && neighbors[i][j] == x
}

/// Every non-blank line that some line lists as a neighbour lists itself too.
/// A geometric neighbour search meets this: a line can only be found when it
/// is in the search grid, and a line in the grid finds itself.
pub open spec fn named_lines_neighbor_themselves(empty: Seq<bool>, neighbors: Seq<Seq<usize>>) -> bool {
    forall|x: usize|
        #[trigger] is_named(neighbors, x) && x < empty.len() && !empty[x as int]
            ==> neighbors[x as int].contains(x)
}

/// Every box member is a line visited among the first `k` or one some line names.
pub open spec fn members_visited_or_named(st: MergeState, neighbors: Seq<Seq<usize>>, k: int) -> bool {
    forall|b: int, y: usize|
        0 <= b < st.members.len() && #[trigger] st.members[b].contains(y) ==> y < k || is_named(
            neighbors,
            y,
        )
}

/// The lines gathered when visiting non-blank line `i`, each listed once.
pub open spec fn gathered_unique(st: MergeState, i: usize, nbrs: Seq<usize>) -> Seq<usize> {
    first_appearances(seq![i] + gather(st.line_boxes, st.members, nbrs).0)
}

proof fn lemma_unique_contents(st: MergeState, i: usize, nbrs: Seq<usize>)
    ensures
        forall|y: usize|
            #[trigger] gathered_unique(st, i, nbrs).contains(y) <==> (y == i || gather(
                st.line_boxes,
                st.members,
                nbrs,
            ).0.contains(y)),
{
    let list = gather(st.line_boxes, st.members, nbrs).0;
    let full = seq![i] + list;
    crate::objects::lemma_first_appearances(full);
    assert forall|y: usize| #[trigger] gathered_unique(st, i, nbrs).contains(y) <==> (y == i
        || list.contains(y)) by {
        if full.contains(y) {
            let w = choose|w: int| 0 <= w < full.len() && full[w] == y;
            if w > 0 {
                assert(list[w - 1] == y);
            }
        }
        if y == i {
            assert(full[0] == y);
        }
        if list.contains(y) {
            let w = choose|w: int| 0 <= w < list.len() && list[w] == y;
            assert(full[w + 1] == y);
        }
    }
}

proof fn lemma_step_holds_lines(
    st: MergeState,
    i: usize,
    empty: Seq<bool>,
    neighbors: Seq<Seq<usize>>,
    m: nat,
)
    requires
        merge_wf(st, m),
        st.members.len() <= i,
        m <= usize::MAX,
        i < m,
        i < empty.len(),
        i < neighbors.len(),
        !empty[i as int],
        forall|j: int| 0 <= j < neighbors[i as int].len() ==> #[trigger] neighbors[i as int][j] < m,
        boxes_hold_their_lines(st, m),
    ensures
        boxes_hold_their_lines(merge_step(st, i, empty, neighbors), m),
{
    let nbrs = neighbors[i as int];
    lemma_gather_facts(st.line_boxes, st.members, nbrs, m);
    let (list, lb) = gather(st.line_boxes, st.members, nbrs);
    let unique = gathered_unique(st, i, nbrs);
    let nb = st.members.len() as usize;
    let st2 = merge_step(st, i, empty, neighbors);
    assert(st2.members == st.members.push(unique));
    assert(st2.line_boxes == assign(lb, unique, nb));
    assert(nb as int == st.members.len());
    assert forall|x: int| 0 <= x < m implies (#[trigger] st2.line_boxes[x] matches Some(b)
        ==> st2.members[b as int].contains(x as usize)) by {
        if !unique.contains(x as usize) {
            assert(st2.line_boxes[x] == lb[x]);
            if lb[x] is Some {
                assert(lb[x] == st.line_boxes[x]);
                assert(st.line_boxes[x] matches Some(c) ==> c < st.members.len());
                let b = lb[x]->0;
                assert(st2.members[b as int] == st.members[b as int]);
            }
        }
    }
}

proof fn lemma_step_keeps_lines_boxed(
    st: MergeState,
    i: usize,
    empty: Seq<bool>,
    neighbors: Seq<Seq<usize>>,
    m: nat,
)
    requires
        merge_wf(st, m),
        st.members.len() <= i,
        m <= usize::MAX,
        i < m,
        i < empty.len(),
        i < neighbors.len(),
        forall|j: int| 0 <= j < neighbors[i as int].len() ==> #[trigger] neighbors[i as int][j] < m,
        visited_lines_boxed(st, empty, i as int),
    ensures
        visited_lines_boxed(merge_step(st, i, empty, neighbors), empty, i + 1),
{
    if !empty[i as int] {
        let nbrs = neighbors[i as int];
        lemma_gather_facts(st.line_boxes, st.members, nbrs, m);
        lemma_unique_contents(st, i, nbrs);
        let (list, lb) = gather(st.line_boxes, st.members, nbrs);
        let unique = gathered_unique(st, i, nbrs);
        let st2 = merge_step(st, i, empty, neighbors);
        assert(st2.line_boxes == assign(lb, unique, st.members.len() as usize));
        assert forall|j: int| 0 <= j < i + 1 && !#[trigger] empty[j] implies st2.line_boxes[j] is Some by {
            if j == i as int {
                assert(unique.contains(i));
            } else if !unique.contains(j as usize) {
                assert(st2.line_boxes[j] == lb[j]);
                if lb[j] is None {
                    assert(st.line_boxes[j] is Some);
                    assert(nbrs.contains(j as usize));
                    assert(list.contains(j as usize));
                }
            }
        }
    } else {
        assert(merge_step(st, i, empty, neighbors) == st);
    }
}

proof fn lemma_step_keeps_boxes_closed(
    st: MergeState,
    i: usize,
    empty: Seq<bool>,
    neighbors: Seq<Seq<usize>>,
    m: nat,
)
    requires
        merge_wf(st, m),
        st.members.len() <= i,
        m <= usize::MAX,
        i < m,
        i < empty.len(),
        i < neighbors.len(),
        !empty[i as int],
        st.line_boxes[i as int] is Some ==> neighbors[i as int].contains(i),
        forall|j: int| 0 <= j < neighbors[i as int].len() ==> #[trigger] neighbors[i as int][j] < m,
        boxes_hold_their_lines(st, m),
        live_boxes_closed(st, m),
    ensures
        live_boxes_closed(merge_step(st, i, empty, neighbors), m),
{
    let nbrs = neighbors[i as int];
    lemma_gather_facts(st.line_boxes, st.members, nbrs, m);
    lemma_unique_contents(st, i, nbrs);
    let (list, lb) = gather(st.line_boxes, st.members, nbrs);
    let unique = gathered_unique(st, i, nbrs);
    let nb = st.members.len() as usize;
    let st2 = merge_step(st, i, empty, neighbors);
    assert(st2.members == st.members.push(unique));
    assert(st2.line_boxes == assign(lb, unique, nb));
    assert(nb as int == st.members.len());
    assert forall|x: int, y: usize, b: usize|
        0 <= x < m && #[trigger] st2.line_boxes[x] == Some(b) && #[trigger] st2.members[b as int].contains(
            y,
        ) implies st2.line_boxes[y as int] == Some(b) by {
        if b == nb && unique.contains(x as usize) {
            assert(st2.members[b as int] == unique);
            assert(y < m) by {
                if y != i {
                    let q = choose|q: usize|
                        #[trigger] nbrs.contains(q) && (y == q || (st.line_boxes[q as int] matches Some(c)
                            && st.members[c as int].contains(y)));
                    let w = choose|w: int| 0 <= w < nbrs.len() && nbrs[w] == q;
                    assert(q < m);
                    if y != q {
                        let c = st.line_boxes[q as int]->0;
                        assert(st.line_boxes[q as int] matches Some(cc) ==> cc < st.members.len());
                        let v = choose|v: int|
                            0 <= v < st.members[c as int].len() && st.members[c as int][v] == y;
                        assert(st.members[c as int][v] < m);
                    }
                }
            }
        } else {
            assert(!unique.contains(x as usize));
            assert(st2.line_boxes[x] == lb[x]);
            assert(lb[x] == st.line_boxes[x]);
            assert(st.line_boxes[x] matches Some(cc) ==> cc < st.members.len());
            assert(b < nb);
            assert(st2.members[b as int] == st.members[b as int]);
            assert(st.line_boxes[y as int] == Some(b));
            assert(st.members[b as int].contains(x as usize));
            assert(!unique.contains(y)) by {
                if unique.contains(y) {
                    let q = if y == i {
                        i
                    } else {
                        choose|q: usize|
                            #[trigger] nbrs.contains(q) && (y == q || (st.line_boxes[q as int] matches Some(c)
                                && st.members[c as int].contains(y)))
                    };
                    assert(nbrs.contains(q));
                    if q == y {
                        assert(st.line_boxes[q as int] == Some(b));
                    } else {
                        let c = st.line_boxes[q as int]->0;
                        assert(st.members[c as int].contains(y));
                        assert(st.line_boxes[y as int] == Some(c));
                        assert(c == b);
                    }
                    assert(list.contains(x as usize));
                    assert(unique.contains(x as usize));
                }
            }
            assert(y < m) by {
                let v = choose|v: int| 0 <= v < st.members[b as int].len() && st.members[b as int][v] == y;
                assert(st.members[b as int][v] < m);
            }
            assert(st2.line_boxes[y as int] == lb[y as int]);
            if lb[y as int] != st.line_boxes[y as int] {
                assert(nbrs.contains(y));
                assert(list.contains(y));
            }
        }
    }
}

proof fn lemma_merge_invariants(m: nat, empty: Seq<bool>, neighbors: Seq<Seq<usize>>, k: int)
    requires
        0 <= k <= m,
        m <= usize::MAX,
        empty.len() == m,
        neighbors.len() == m,
        neighbors_in_range(neighbors, m),
    ensures
        boxes_hold_their_lines(merge_upto(m, empty, neighbors, k), m),
        visited_lines_boxed(merge_upto(m, empty, neighbors, k), empty, k),
        members_visited_or_named(merge_upto(m, empty, neighbors, k), neighbors, k),
        named_lines_neighbor_themselves(empty, neighbors) ==> live_boxes_closed(
            merge_upto(m, empty, neighbors, k),
            m,
        ),
    decreases k,
{
    if k > 0 {
        lemma_merge_invariants(m, empty, neighbors, k - 1);
        lemma_members_visited_or_named(m, empty, neighbors, k);
        lemma_merge_upto_wf(m, empty, neighbors, k - 1);
        let st = merge_upto(m, empty, neighbors, k - 1);
        let i = (k - 1) as usize;
        assert forall|j: int| 0 <= j < neighbors[i as int].len() implies #[trigger] neighbors[i as int][j]
            < m by {}
        lemma_step_keeps_lines_boxed(st, i, empty, neighbors, m);
        if !empty[i as int] {
            lemma_step_holds_lines(st, i, empty, neighbors, m);
            if named_lines_neighbor_themselves(empty, neighbors) {
                if st.line_boxes[i as int] is Some {
                    let b = st.line_boxes[i as int]->0;
                    assert(st.line_boxes[i as int] matches Some(c) ==> st.members[c as int].contains(i));
                    assert(st.members[b as int].contains(i));
                    assert(is_named(neighbors, i));
                }
                lemma_step_keeps_boxes_closed(st, i, empty, neighbors, m);
            }
        }
    }
}

proof fn lemma_members_visited_or_named(m: nat, empty: Seq<bool>, neighbors: Seq<Seq<usize>>, k: int)
    requires
        0 <= k <= m,
        empty.len() == m,
        neighbors.len() == m,
        neighbors_in_range(neighbors, m),
    ensures
        members_visited_or_named(merge_upto(m, empty, neighbors, k), neighbors, k),
    decreases k,
{
    if k > 0 {
        lemma_members_visited_or_named(m, empty, neighbors, k - 1);
        lemma_merge_upto_wf(m, empty, neighbors, k - 1);
        let st = merge_upto(m, empty, neighbors, k - 1);
        let i = (k - 1) as usize;
        if !empty[i as int] {
            let nbrs = neighbors[i as int];
            assert forall|j: int| 0 <= j < nbrs.len() implies #[trigger] nbrs[j] < m by {}
            lemma_gather_facts(st.line_boxes, st.members, nbrs, m);
            let (list, lb) = gather(st.line_boxes, st.members, nbrs);
            let unique = first_appearances(seq![i] + list);
            crate::objects::lemma_first_appearances(seq![i] + list);
            let st2 = merge_upto(m, empty, neighbors, k);
            assert(st2.members == st.members.push(unique));
            assert forall|b: int, y: usize|
                0 <= b < st2.members.len() && #[trigger] st2.members[b].contains(y) implies y < k
                || is_named(neighbors, y) by {
                if b < st.members.len() {
                    assert(st2.members[b] == st.members[b]);
                } else {
                    assert((seq![i] + list).contains(y));
                    let q = choose|q: int| 0 <= q < (seq![i] + list).len() && (seq![i] + list)[q] == y;
                    if q > 0 {
                        assert(list[q - 1] == y);
                        assert(list.contains(y));
                        let n = choose|n: usize|
                            #[trigger] nbrs.contains(n) && (y == n || (st.line_boxes[n as int] matches Some(bb)
                                && st.members[bb as int].contains(y)));
                        let jn = choose|jn: int| 0 <= jn < nbrs.len() && nbrs[jn] == n;
                        assert(neighbors[i as int][jn] == n);
                        assert(is_named(neighbors, n));
                        if y != n {
                            let bb = st.line_boxes[n as int]->Some_0;
                            assert(st.line_boxes[n as int] matches Some(c) ==> c < st.members.len());
                            assert(st.members[bb as int].contains(y));
                        }
                    }
                }
            }
        } else {
            assert(merge_upto(m, empty, neighbors, k) == st);
        }
    }
}

proof fn lemma_present_boxes(line_boxes: Seq<Option<usize>>, b: usize)
    ensures
        present_boxes(line_boxes).contains(b) <==> exists|x: int|
            0 <= x < line_boxes.len() && #[trigger] line_boxes[x] == Some(b),
    decreases line_boxes.len(),
{
    if line_boxes.len() > 0 {
        let d = line_boxes.drop_last();
        lemma_present_boxes(d, b);
        let p = present_boxes(line_boxes);
        let pd = present_boxes(d);
        if p.contains(b) {
            let w = choose|w: int| 0 <= w < p.len() && p[w] == b;
            if w < pd.len() {
                assert(pd[w] == b);
                let x = choose|x: int| 0 <= x < d.len() && #[trigger] d[x] == Some(b);
                assert(line_boxes[x] == Some(b));
            } else {
                assert(line_boxes[line_boxes.len() - 1] == Some(b));
            }
        }
        if exists|x: int| 0 <= x < line_boxes.len() && #[trigger] line_boxes[x] == Some(b) {
            let x = choose|x: int| 0 <= x < line_boxes.len() && #[trigger] line_boxes[x] == Some(b);
            if x < d.len() {
                assert(d[x] == Some(b));
                let w = choose|w: int| 0 <= w < pd.len() && pd[w] == b;
                assert(p[w] == b);
            } else {
                assert(p[pd.len() as int] == b);
            }
        }
    }
}

proof fn lemma_members_distinct(m: nat, empty: Seq<bool>, neighbors: Seq<Seq<usize>>, k: int)
    ensures
        forall|b: int|
            0 <= b < merge_upto(m, empty, neighbors, k).members.len() ==> (#[trigger] merge_upto(
                m,
                empty,
                neighbors,
                k,
            ).members[b]).no_duplicates(),
    decreases k,
{
    if k > 0 {
        lemma_members_distinct(m, empty, neighbors, k - 1);
        let st = merge_upto(m, empty, neighbors, k - 1);
        let i = (k - 1) as usize;
        if !empty[i as int] {
            let (list, lb) = gather(st.line_boxes, st.members, neighbors[i as int]);
            crate::objects::lemma_first_appearances(seq![i] + list);
            let st2 = merge_upto(m, empty, neighbors, k);
            assert(st2.members == st.members.push(first_appearances(seq![i] + list)));
            assert forall|b: int| 0 <= b < st2.members.len() implies (#[trigger] st2.members[b]).no_duplicates() by {
                if b < st.members.len() {
                    assert(st2.members[b] == st.members[b]);
                }
            }
        }
    }
}

/// Neighbour lists name only non-blank lines.
pub open spec fn neighbors_nonblank(empty: Seq<bool>, neighbors: Seq<Seq<usize>>) -> bool {
    forall|i: int, j: int|
        0 <= i < neighbors.len() && 0 <= j < neighbors[i].len() ==> !empty[#[trigger] neighbors[i][j] as int]
}

proof fn lemma_members_nonblank(m: nat, empty: Seq<bool>, neighbors: Seq<Seq<usize>>, k: int)
    requires
        0 <= k <= m,
        empty.len() == m,
        neighbors.len() == m,
        neighbors_in_range(neighbors, m),
        neighbors_nonblank(empty, neighbors),
    ensures
        forall|b: int, y: usize|
            0 <= b < merge_upto(m, empty, neighbors, k).members.len() && #[trigger] merge_upto(
                m,
                empty,
                neighbors,
                k,
            ).members[b].contains(y) ==> !empty[y as int],
    decreases k,
{
    if k > 0 {
        lemma_members_nonblank(m, empty, neighbors, k - 1);
        lemma_merge_upto_wf(m, empty, neighbors, k - 1);
        let st = merge_upto(m, empty, neighbors, k - 1);
        let i = (k - 1) as usize;
        if !empty[i as int] {
            let nbrs = neighbors[i as int];
            assert forall|j: int| 0 <= j < nbrs.len() implies #[trigger] nbrs[j] < m by {}
            lemma_gather_facts(st.line_boxes, st.members, nbrs, m);
            let (list, lb) = gather(st.line_boxes, st.members, nbrs);
            let unique = first_appearances(seq![i] + list);
            crate::objects::lemma_first_appearances(seq![i] + list);
            let st2 = merge_upto(m, empty, neighbors, k);
            assert(st2.members == st.members.push(unique));
            assert forall|b: int, y: usize|
                0 <= b < st2.members.len() && #[trigger] st2.members[b].contains(y) implies !empty[y as int] by {
                if b < st.members.len() {
                    assert(st2.members[b] == st.members[b]);
                } else {
                    assert(st2.members[b] == unique);
                    assert((seq![i] + list).contains(y));
                    let q = choose|q: int| 0 <= q < (seq![i] + list).len() && (seq![i] + list)[q] == y;
                    if q > 0 {
                        assert(list[q - 1] == y);
                        assert(list.contains(y));
                        let n = choose|n: usize|
                            #[trigger] nbrs.contains(n) && (y == n || (st.line_boxes[n as int] matches Some(bb)
                                && st.members[bb as int].contains(y)));
                        let jn = choose|jn: int| 0 <= jn < nbrs.len() && nbrs[jn] == n;
                        assert(!empty[nbrs[jn] as int]);
                        if y != n {
                            let bb = st.line_boxes[n as int]->Some_0;
                            assert(st.members[bb as int].contains(y));
                        }
                    }
                }
            }
        }
    }
}

/// When neighbour lists name only non-blank lines, a reported box holds
/// exactly non-blank lines, and every non-blank line is in a reported box.
pub proof fn lemma_merged_boxes_hold_nonblank_lines(empty: Seq<bool>, neighbors: Seq<Seq<usize>>)
    requires
        neighbors.len() == empty.len(),
        empty.len() <= usize::MAX,
        neighbors_in_range(neighbors, empty.len()),
        neighbors_nonblank(empty, neighbors),
    ensures
        forall|k: int, y: usize|
            0 <= k < merged_boxes(empty, neighbors).len() && #[trigger] merged_boxes(empty, neighbors)[k].contains(y)
                ==> y < empty.len() && !empty[y as int],
{
    let m = empty.len();
    let st = merge_upto(m, empty, neighbors, m as int);
    lemma_merge_upto_wf(m, empty, neighbors, m as int);
    lemma_members_nonblank(m, empty, neighbors, m as int);
    let present = present_boxes(st.line_boxes);
    let order = first_appearances(present);
    crate::objects::lemma_first_appearances(present);
    let r = merged_boxes(empty, neighbors);
    assert forall|k: int, y: usize|
        0 <= k < r.len() && #[trigger] r[k].contains(y) implies y < m && !empty[y as int] by {
        let b = order[k];
        assert(order.contains(b));
        assert(present.contains(b));
        lemma_present_boxes(st.line_boxes, b);
        let x = choose|x: int| 0 <= x < st.line_boxes.len() && #[trigger] st.line_boxes[x] == Some(b);
        assert(st.line_boxes[x] matches Some(c) ==> c < st.members.len());
        assert(r[k] == st.members[b as int]);
        let j = choose|j: int| 0 <= j < r[k].len() && r[k][j] == y;
        assert(st.members[b as int][j] < m);
    }
}

/// Every reported box lists each of its lines once, and every non-blank line
/// is in some reported box.
pub proof fn lemma_merged_boxes_cover_lines(empty: Seq<bool>, neighbors: Seq<Seq<usize>>)
    requires
        neighbors.len() == empty.len(),
        empty.len() <= usize::MAX,
        neighbors_in_range(neighbors, empty.len()),
    ensures
        forall|k: int|
            0 <= k < merged_boxes(empty, neighbors).len() ==> (#[trigger] merged_boxes(
                empty,
                neighbors,
            )[k]).no_duplicates(),
        forall|i: int|
            0 <= i < empty.len() && !#[trigger] empty[i] ==> exists|k: int|
                0 <= k < merged_boxes(empty, neighbors).len() && merged_boxes(empty, neighbors)[k].contains(
                    i as usize,
                ),
{
    let m = empty.len();
    let st = merge_upto(m, empty, neighbors, m as int);
    lemma_merge_upto_wf(m, empty, neighbors, m as int);
    lemma_merge_invariants(m, empty, neighbors, m as int);
    lemma_members_distinct(m, empty, neighbors, m as int);
    let present = present_boxes(st.line_boxes);
    let order = first_appearances(present);
    crate::objects::lemma_first_appearances(present);
    let r = merged_boxes(empty, neighbors);
    assert(r == order.map_values(|b: usize| st.members[b as int]));
    assert forall|k: int| 0 <= k < r.len() implies (#[trigger] r[k]).no_duplicates() by {
        let b = order[k];
        assert(order.contains(b));
        assert(present.contains(b));
        lemma_present_boxes(st.line_boxes, b);
        let x = choose|x: int| 0 <= x < st.line_boxes.len() && #[trigger] st.line_boxes[x] == Some(b);
        assert(st.line_boxes[x] matches Some(c) ==> c < st.members.len());
        assert(r[k] == st.members[b as int]);
    }
    assert forall|i: int| 0 <= i < m && !#[trigger] empty[i] implies exists|k: int|
        0 <= k < r.len() && r[k].contains(i as usize) by {
        let b = st.line_boxes[i]->0;
        assert(st.line_boxes[i] == Some(b));
        lemma_present_boxes(st.line_boxes, b);
        assert(present.contains(b));
        assert(order.contains(b));
        let k = choose|k: int| 0 <= k < order.len() && order[k] == b;
        assert(r[k] == st.members[b as int]);
        assert(r[k].contains(i as usize));
    }
}

/// When every non-blank line that is some line's neighbour is its own
/// neighbour too (as a geometric search gives), no line is in two reported
/// boxes: together with [`lemma_merged_boxes_cover_lines`], the boxes
/// partition the lines they hold.
pub proof fn lemma_merged_boxes_disjoint(empty: Seq<bool>, neighbors: Seq<Seq<usize>>)
    requires
        neighbors.len() == empty.len(),
        empty.len() <= usize::MAX,
        neighbors_in_range(neighbors, empty.len()),
        named_lines_neighbor_themselves(empty, neighbors),
    ensures
        forall|k1: int, k2: int, y: usize|
            0 <= k1 < merged_boxes(empty, neighbors).len() && 0 <= k2 < merged_boxes(
                empty,
                neighbors,
            ).len() && k1 != k2 && #[trigger] merged_boxes(empty, neighbors)[k1].contains(y)
                ==> !#[trigger] merged_boxes(empty, neighbors)[k2].contains(y),
{
    let m = empty.len();
    let st = merge_upto(m, empty, neighbors, m as int);
    lemma_merge_upto_wf(m, empty, neighbors, m as int);
    lemma_merge_invariants(m, empty, neighbors, m as int);
    let present = present_boxes(st.line_boxes);
    let order = first_appearances(present);
    crate::objects::lemma_first_appearances(present);
    let r = merged_boxes(empty, neighbors);
    assert(r == order.map_values(|b: usize| st.members[b as int]));
    assert forall|k1: int, k2: int, y: usize|
        0 <= k1 < r.len() && 0 <= k2 < r.len() && k1 != k2 && #[trigger] r[k1].contains(y) implies !#[trigger] r[k2].contains(
        y,
    ) by {
        let b1 = order[k1];
        let b2 = order[k2];
        assert(b1 != b2);
        assert(order.contains(b1));
        assert(order.contains(b2));
        lemma_present_boxes(st.line_boxes, b1);
        lemma_present_boxes(st.line_boxes, b2);
        let x1 = choose|x: int| 0 <= x < st.line_boxes.len() && #[trigger] st.line_boxes[x] == Some(b1);
        let x2 = choose|x: int| 0 <= x < st.line_boxes.len() && #[trigger] st.line_boxes[x] == Some(b2);
        assert(r[k1] == st.members[b1 as int]);
        assert(r[k2] == st.members[b2 as int]);
        if r[k2].contains(y) {
            assert(st.line_boxes[y as int] == Some(b1));
            assert(st.line_boxes[y as int] == Some(b2));
        }
    }
}

} // verus!
