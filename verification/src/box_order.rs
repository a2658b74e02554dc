//! The order in which a page's text boxes are read.
//!
//! With `boxes_flow` set, boxes are clustered bottom-up: the two nearest
//! groups merge into a new group, which reads its two members in the order
//! the flow weighting gives, until no pair is left; the reading order is the
//! boxes under each node not merged into a group, unmerged boxes first, then
//! groups in creation order. Which
//! pair merges next and which member reads first are decided on measured
//! coordinates by the caller; [`BoxClusters`] keeps the groups and gives the
//! order. Without `boxes_flow`, boxes are sorted by a position key
//! ([`order_by_keys`]).

use vstd::prelude::*;
use vstd::seq_lib::{lemma_multiset_commutative, to_multiset_build, to_multiset_insert};

use crate::pages::index_range;

verus! {

/// A sort key: three integers compared in order.
pub type SortKey = (i64, i64, i64);

/// Key `a` sorts strictly before key `b`.
pub open spec fn key_less(a: SortKey, b: SortKey) -> bool {
    ||| a.0 < b.0
    ||| (a.0 == b.0 && a.1 < b.1)
    ||| (a.0 == b.0 && a.1 == b.1 && a.2 < b.2)
}

/// Item `i` sorts strictly before item `j`: by key, equal keys by index.
pub open spec fn ranked_before(keys: Seq<SortKey>, i: usize, j: usize) -> bool {
    key_less(keys[i as int], keys[j as int]) || (keys[i as int] == keys[j as int] && i < j)
}

/// `order` lists items in strictly increasing rank.
pub open spec fn ranked(keys: Seq<SortKey>, order: Seq<usize>) -> bool {
    forall|p: int, q: int| 0 <= p < q < order.len() ==> ranked_before(keys, #[trigger] order[p], #[trigger] order[q])
}

fn key_less_exec(a: SortKey, b: SortKey) -> (res: bool)
    ensures
        res == key_less(a, b),
{
    a.0 < b.0 || (a.0 == b.0 && a.1 < b.1) || (a.0 == b.0 && a.1 == b.1 && a.2 < b.2)
}

/// The indices `0..keys.len()` sorted by key, items with equal keys in index
/// order (a stable sort): each index exactly once, in strictly increasing rank.
pub fn order_by_keys(keys: &Vec<SortKey>) -> (res: Vec<usize>)
    ensures
        res@.to_multiset() == index_range(0, keys.len() as int).to_multiset(),
        res@.len() == keys.len(),
        ranked(keys@, res@),
{
    let mut res: Vec<usize> = Vec::new();
    let mut i: usize = 0;
    assert(index_range(0, 0) =~= Seq::<usize>::empty());
    while i < keys.len()
        invariant
            i <= keys.len(),
            res@.len() == i,
            res@.to_multiset() == index_range(0, i as int).to_multiset(),
            forall|p: int| 0 <= p < res@.len() ==> #[trigger] res@[p] < i,
            ranked(keys@, res@),
        decreases keys.len() - i,
    {
        let mut pos: usize = 0;
        while pos < res.len() && !key_less_exec(keys[i], keys[res[pos]])
            invariant
                i < keys.len(),
                pos <= res@.len(),
                forall|p: int| 0 <= p < res@.len() ==> #[trigger] res@[p] < i,
                forall|p: int| 0 <= p < pos ==> !key_less(keys@[i as int], #[trigger] keys@[res@[p] as int]),
            decreases res@.len() - pos,
        {
            pos = pos + 1;
        }
        let ghost before = res@;
        proof {
            assert forall|q: int| pos <= q < before.len() implies key_less(
                keys@[i as int],
                #[trigger] keys@[before[q] as int],
            ) by {
                if q > pos {
                    assert(ranked_before(keys@, before[pos as int], before[q]));
                }
            }
        }
        res.insert(pos, i);
        proof {
            to_multiset_insert(before, pos as int, i);
            assert(index_range(0, i + 1) =~= index_range(0, i as int).push(i));
            to_multiset_build(index_range(0, i as int), i);
            assert forall|p: int, q: int| 0 <= p < q < res@.len() implies ranked_before(
                keys@,
                #[trigger] res@[p],
                #[trigger] res@[q],
            ) by {
                if q < pos {
                    assert(res@[p] == before[p] && res@[q] == before[q]);
                } else if q == pos {
                    assert(res@[p] == before[p]);
                } else if p < pos {
                    assert(res@[p] == before[p] && res@[q] == before[q - 1]);
                } else if p == pos {
                    assert(res@[q] == before[q - 1]);
                } else {
                    assert(res@[p] == before[p - 1] && res@[q] == before[q - 1]);
                }
            }
            assert forall|p: int| 0 <= p < res@.len() implies #[trigger] res@[p] < i + 1 by {
                if p < pos {
                    assert(res@[p] == before[p]);
                } else if p > pos {
                    assert(res@[p] == before[p - 1]);
                }
            }
        }
        i = i + 1;
    }
    res
}


/// The boxes under `node`, in reading order: a box (`node < leaf_count`)
/// stands for itself; group `leaf_count + k` reads the boxes under its first
/// member, then those under its second.
pub open spec fn cluster_leaves(members: Seq<(usize, usize)>, leaf_count: nat, node: int) -> Seq<usize>
    decreases node,
{
    if 0 <= node < leaf_count {
        seq![node as usize]
    } else if leaf_count <= node < leaf_count + members.len() && members[node - leaf_count].0 < node
        && members[node - leaf_count].1 < node {
        cluster_leaves(members, leaf_count, members[node - leaf_count].0 as int) + cluster_leaves(
            members,
            leaf_count,
            members[node - leaf_count].1 as int,
        )
    } else {
        Seq::empty()
    }
}

/// The boxes under the active nodes among the first `m`, nodes in index order.
pub open spec fn cluster_order(
    members: Seq<(usize, usize)>,
    active: Seq<bool>,
    leaf_count: nat,
    m: int,
) -> Seq<usize>
    decreases m,
{
    if m <= 0 {
        Seq::empty()
    } else {
        cluster_order(members, active, leaf_count, m - 1) + if active[m - 1] {
            cluster_leaves(members, leaf_count, m - 1)
        } else {
            Seq::empty()
        }
    }
}

/// Each group's members were created before it, and are two different nodes.
pub open spec fn members_precede(members: Seq<(usize, usize)>, leaf_count: nat) -> bool {
    forall|k: int|
        0 <= k < members.len() ==> {
            &&& (#[trigger] members[k]).0 < leaf_count + k
            &&& members[k].1 < leaf_count + k
            &&& members[k].0 != members[k].1
        }
}

/// The order over the first `m` nodes reads only their flags and groups.
proof fn lemma_order_stable(
    members: Seq<(usize, usize)>,
    active: Seq<bool>,
    other_members: Seq<(usize, usize)>,
    other_active: Seq<bool>,
    leaf_count: nat,
    m: int,
)
    requires
        0 <= m <= leaf_count + members.len(),
        m <= active.len(),
        m <= other_active.len(),
        other_members.len() >= members.len(),
        forall|k: int| 0 <= k < members.len() ==> #[trigger] other_members[k] == members[k],
        forall|i: int| 0 <= i < m ==> #[trigger] other_active[i] == active[i],
    ensures
        cluster_order(other_members, other_active, leaf_count, m) == cluster_order(members, active, leaf_count, m),
    decreases m,
{
    if m > 0 {
        lemma_order_stable(members, active, other_members, other_active, leaf_count, m - 1);
        lemma_leaves_prefix(members, other_members, leaf_count, m - 1);
    }
}

/// The boxes under a node depend only on the groups created up to it.
proof fn lemma_leaves_prefix(
    members: Seq<(usize, usize)>,
    other_members: Seq<(usize, usize)>,
    leaf_count: nat,
    node: int,
)
    requires
        0 <= node < leaf_count + members.len(),
        other_members.len() >= members.len(),
        forall|k: int| 0 <= k < members.len() ==> #[trigger] other_members[k] == members[k],
    ensures
        cluster_leaves(other_members, leaf_count, node) == cluster_leaves(members, leaf_count, node),
    decreases node,
{
    if node >= leaf_count {
        assert(other_members[node - leaf_count] == members[node - leaf_count]);
        let c = members[node - leaf_count];
        if c.0 < node && c.1 < node {
            lemma_leaves_prefix(members, other_members, leaf_count, c.0 as int);
            lemma_leaves_prefix(members, other_members, leaf_count, c.1 as int);
        }
    }
}

/// Turning off an active node's flag takes exactly its boxes out of the order.
proof fn lemma_order_without(
    members: Seq<(usize, usize)>,
    active: Seq<bool>,
    leaf_count: nat,
    m: int,
    node: int,
)
    requires
        0 <= node < m <= active.len(),
        active[node],
    ensures
        cluster_order(members, active, leaf_count, m).to_multiset() == cluster_order(
            members,
            active.update(node, false),
            leaf_count,
            m,
        ).to_multiset().add(cluster_leaves(members, leaf_count, node).to_multiset()),
    decreases m,
{
    let off = active.update(node, false);
    let leaves_before = if active[m - 1] {
        cluster_leaves(members, leaf_count, m - 1)
    } else {
        Seq::empty()
    };
    if node == m - 1 {
        assert forall|i: int| 0 <= i < m - 1 implies #[trigger] off[i] == active[i] by {}
        lemma_order_stable_flags(members, active, off, leaf_count, m - 1);
        lemma_multiset_commutative(cluster_order(members, active, leaf_count, m - 1), leaves_before);
        assert(cluster_order(members, off, leaf_count, m) =~= cluster_order(members, off, leaf_count, m - 1)
            + Seq::<usize>::empty());
    } else {
        lemma_order_without(members, active, leaf_count, m - 1, node);
        assert(off[m - 1] == active[m - 1]);
        lemma_multiset_commutative(cluster_order(members, active, leaf_count, m - 1), leaves_before);
        lemma_multiset_commutative(cluster_order(members, off, leaf_count, m - 1), leaves_before);
    }
}

/// The order over the first `m` nodes reads only their flags.
proof fn lemma_order_stable_flags(
    members: Seq<(usize, usize)>,
    active: Seq<bool>,
    other_active: Seq<bool>,
    leaf_count: nat,
    m: int,
)
    requires
        0 <= m <= active.len(),
        m <= other_active.len(),
        forall|i: int| 0 <= i < m ==> #[trigger] other_active[i] == active[i],
    ensures
        cluster_order(members, other_active, leaf_count, m) == cluster_order(members, active, leaf_count, m),
    decreases m,
{
    if m > 0 {
        lemma_order_stable_flags(members, active, other_active, leaf_count, m - 1);
    }
}

/// With no groups and every box active, the order is `0..leaf_count`.
proof fn lemma_initial_order(leaf_count: nat, m: int)
    requires
        0 <= m <= leaf_count,
        leaf_count <= usize::MAX,
    ensures
        cluster_order(Seq::empty(), Seq::new(leaf_count, |i: int| true), leaf_count, m) == index_range(0, m),
    decreases m,
{
    if m > 0 {
        lemma_initial_order(leaf_count, m - 1);
        assert(index_range(0, m) =~= index_range(0, m - 1) + seq![(m - 1) as usize]);
    } else {
        assert(index_range(0, 0) =~= Seq::<usize>::empty());
    }
}


/// The groups of a bottom-up clustering of `leaf_count` boxes. Node `i <
/// leaf_count` is box `i`; node `leaf_count + k` is the group made by the
/// `k`-th merge. A node is active until it is merged into a group.
pub struct BoxClusters {
    leaf_count: usize,
    members: Vec<(usize, usize)>,
    active: Vec<bool>,
}

impl BoxClusters {
    /// The number of boxes.
    pub closed spec fn leaves(&self) -> nat {
        self.leaf_count as nat
    }

    /// The members of each group, in creation order: the member read first, then the other.
    pub closed spec fn groups(&self) -> Seq<(usize, usize)> {
        self.members@
    }

    /// Which nodes are active, boxes first, then groups in creation order.
    pub closed spec fn active_nodes(&self) -> Seq<bool> {
        self.active@
    }

    /// The number of nodes, boxes and groups.
    pub open spec fn nodes(&self) -> nat {
        self.leaves() + self.groups().len()
    }

    /// The reading order these groups give.
    pub open spec fn order(&self) -> Seq<usize> {
        cluster_order(self.groups(), self.active_nodes(), self.leaves(), self.nodes() as int)
    }

    /// The groups are well formed and the active nodes hold every box exactly once.
    pub closed spec fn wf(&self) -> bool {
        &&& self.active@.len() == self.leaf_count + self.members@.len()
        &&& members_precede(self.members@, self.leaf_count as nat)
        &&& self.order().to_multiset() == index_range(0, self.leaf_count as int).to_multiset()
    }

    /// `leaf_count` boxes, each active on its own.
    pub fn new(leaf_count: usize) -> (res: BoxClusters)
        ensures
            res.wf(),
            res.leaves() == leaf_count,
            res.groups() == Seq::<(usize, usize)>::empty(),
            res.active_nodes() == Seq::new(leaf_count as nat, |i: int| true),
    {
        let mut active: Vec<bool> = Vec::new();
        let mut i: usize = 0;
        while i < leaf_count
            invariant
                i <= leaf_count,
                active@ == Seq::new(i as nat, |j: int| true),
            decreases leaf_count - i,
        {
            active.push(true);
            i = i + 1;
            assert(active@ =~= Seq::new(i as nat, |j: int| true));
        }
        let res = BoxClusters { leaf_count, members: Vec::new(), active };
        proof {
            lemma_initial_order(leaf_count as nat, leaf_count as int);
            assert(res.members@ =~= Seq::<(usize, usize)>::empty());
        }
        res
    }

    /// The number of nodes, boxes and groups.
    pub fn node_count(&self) -> (res: usize)
        requires
            self.wf(),
        ensures
            res == self.nodes(),
    {
        self.active.len()
    }

    /// Whether `node` is active (not yet merged into a group).
    pub fn is_active(&self, node: usize) -> (res: bool)
        requires
            self.wf(),
            node < self.nodes(),
        ensures
            res == self.active_nodes()[node as int],
    {
        self.active[node]
    }

    /// Merge the active nodes `first` and `second` into a new group, which
    /// reads `first`'s boxes before `second`'s; returns the group's node.
    pub fn merge(&mut self, first: usize, second: usize) -> (res: usize)
        requires
            old(self).wf(),
            first < old(self).nodes(),
            second < old(self).nodes(),
            first != second,
            old(self).active_nodes()[first as int],
            old(self).active_nodes()[second as int],
            old(self).nodes() < usize::MAX,
        ensures
            final(self).wf(),
            res == old(self).nodes(),
            final(self).leaves() == old(self).leaves(),
            final(self).groups() == old(self).groups().push((first, second)),
            final(self).active_nodes() == old(self).active_nodes().update(first as int, false).update(
                second as int,
                false,
            ).push(true),
    {
        let ghost members = self.members@;
        let ghost active = self.active@;
        let ghost n = self.leaf_count as nat;
        let ghost count = active.len() as int;
        let node = self.active.len();
        self.active.set(first, false);
        self.active.set(second, false);
        self.active.push(true);
        self.members.push((first, second));
        proof {
            let off1 = active.update(first as int, false);
            let off2 = off1.update(second as int, false);
            let new_members = members.push((first, second));
            let new_active = off2.push(true);
            assert(self.active@ =~= new_active);
            assert(self.members@ =~= new_members);
            lemma_order_without(members, active, n, count, first as int);
            lemma_order_without(members, off1, n, count, second as int);
            assert forall|k: int| 0 <= k < members.len() implies #[trigger] new_members[k] == members[k] by {}
            assert forall|i: int| 0 <= i < count implies #[trigger] new_active[i] == off2[i] by {}
            lemma_order_stable(members, off2, new_members, new_active, n, count);
            lemma_leaves_prefix(members, new_members, n, first as int);
            lemma_leaves_prefix(members, new_members, n, second as int);
            let lf = cluster_leaves(members, n, first as int);
            let ls = cluster_leaves(members, n, second as int);
            assert(new_members[count - n] == (first, second));
            assert(cluster_leaves(new_members, n, count) == lf + ls);
            assert(cluster_order(new_members, new_active, n, count + 1) == cluster_order(
                members,
                off2,
                n,
                count,
            ) + (lf + ls));
            lemma_multiset_commutative(cluster_order(members, off2, n, count), lf + ls);
            lemma_multiset_commutative(lf, ls);
            assert(off1[second as int]);
            let rest = cluster_order(members, off2, n, count).to_multiset();
            assert(cluster_order(members, active, n, count).to_multiset() =~= rest.add(ls.to_multiset()).add(
                lf.to_multiset(),
            ));
            assert(cluster_order(new_members, new_active, n, count + 1).to_multiset() =~= rest.add(
                lf.to_multiset().add(ls.to_multiset()),
            ));
            assert(self.order() == cluster_order(new_members, new_active, n, count + 1));
            assert(rest.add(lf.to_multiset().add(ls.to_multiset())) =~= rest.add(ls.to_multiset()).add(
                lf.to_multiset(),
            ));
            assert(self.order().to_multiset() == index_range(0, n as int).to_multiset());
            assert(self.active@.len() == self.leaf_count + self.members@.len());
            assert(members_precede(new_members, n)) by {
                assert forall|k: int| 0 <= k < new_members.len() implies {
                    &&& (#[trigger] new_members[k]).0 < n + k
                    &&& new_members[k].1 < n + k
                    &&& new_members[k].0 != new_members[k].1
                } by {
                    if k < members.len() {
                        assert(new_members[k] == members[k]);
                    }
                }
            }
        }
        node
    }

    /// Append the boxes under `node` to `out`.
    fn collect_leaves(&self, node: usize, out: &mut Vec<usize>)
        requires
            self.wf(),
            node < self.nodes(),
        ensures
            final(out)@ == old(out)@ + cluster_leaves(self.groups(), self.leaves(), node as int),
        decreases node,
    {
        if node < self.leaf_count {
            out.push(node);
        } else {
            let (first, second) = self.members[node - self.leaf_count];
            proof {
                assert(members_precede(self.members@, self.leaf_count as nat));
                assert(self.members@[node - self.leaf_count] == (first, second));
            }
            self.collect_leaves(first, out);
            self.collect_leaves(second, out);
        }
    }

    /// The reading order: the boxes under each active node, nodes in index
    /// order. Every box appears exactly once.
    pub fn reading_order(&self) -> (res: Vec<usize>)
        requires
            self.wf(),
        ensures
            res@ == self.order(),
            res@.to_multiset() == index_range(0, self.leaves() as int).to_multiset(),
    {
        let mut out: Vec<usize> = Vec::new();
        let mut i: usize = 0;
        while i < self.active.len()
            invariant
                self.wf(),
                i <= self.nodes(),
                self.active@.len() == self.nodes(),
                out@ == cluster_order(self.groups(), self.active_nodes(), self.leaves(), i as int),
            decreases self.active@.len() - i,
        {
            if self.active[i] {
                self.collect_leaves(i, &mut out);
            } else {
                assert(out@ =~= out@ + Seq::<usize>::empty());
            }
            i = i + 1;
        }
        out
    }
}

/// However the groups were merged, the reading order they give takes every
/// box exactly once.
pub proof fn lemma_cluster_order_is_permutation(clusters: BoxClusters)
    requires
        clusters.wf(),
    ensures
        clusters.order().to_multiset() == index_range(0, clusters.leaves() as int).to_multiset(),
{
}

} // verus!
