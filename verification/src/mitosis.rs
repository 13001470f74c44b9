//! Concept splitting: engrams are grouped by cluster label, the largest clusters
//! become child concepts, and noise stays with the parent.

use crate::double::Double;
use crate::error::{ErrorView, Outcome};
use crate::ids::{to_i64, MAX_PARAM};
use crate::llm::is_slice;
use crate::text::{decimal, find_span, is_span, join, joined, show_u64, views};
use crate::types::ConceptId;
use vstd::prelude::*;

verus! {

/// The label of an engram that belongs to no cluster.
pub const NOISE: i64 = -1;

/// Outcome of one split.
#[derive(Clone, Copy, Debug, PartialEq, Eq, Structural)]
pub struct MitosisReport {
    /// The parent concept.
    pub concept_id: ConceptId,
    /// Number of child concepts created.
    pub children_created: u64,
    /// Number of engrams moved to children.
    pub reassigned: u64,
    /// Number of engrams that stayed with the parent.
    pub noise_kept: u64,
}

/// The engrams that share one label, by position.
#[derive(Debug)]
pub struct Cluster {
    pub label: i64,
    pub members: Vec<usize>,
}

/// The positions of `label`, ascending.
pub open spec fn members_of(labels: Seq<i64>, label: i64) -> Seq<usize>
    decreases labels.len(),
{
    if labels.len() == 0 {
        Seq::empty()
    } else {
        let before = members_of(labels.drop_last(), label);
        if labels.last() == label {
            before.push((labels.len() - 1) as usize)
        } else {
            before
        }
    }
}

/// `clusters` holds, for each label that is not noise, its members, once.
pub open spec fn groups(labels: Seq<i64>, clusters: Seq<Cluster>) -> bool {
    &&& forall|k: int|
        0 <= k < clusters.len() ==> (#[trigger] clusters[k]).label != NOISE && clusters[k].members@
            == members_of(labels, clusters[k].label) && clusters[k].members@.len() > 0
    &&& forall|a: int, b: int|
        0 <= a < b < clusters.len() ==> (#[trigger] clusters[a]).label != (
        #[trigger] clusters[b]).label
    &&& forall|i: int|
        0 <= i < labels.len() && #[trigger] labels[i] != NOISE ==> has_label(clusters, labels[i])
}

/// One of the clusters has the label.
pub open spec fn has_label(clusters: Seq<Cluster>, label: i64) -> bool {
    exists|k: int| 0 <= k < clusters.len() && (#[trigger] clusters[k]).label == label
}

/// `a` goes before `b`: it is larger, or as large and seen earlier.
pub open spec fn outranks(a: Cluster, b: Cluster) -> bool {
    ||| a.members@.len() > b.members@.len()
    ||| a.members@.len() == b.members@.len() && a.members@[0] < b.members@[0]
}

/// Largest first.
pub open spec fn ranked(clusters: Seq<Cluster>) -> bool {
    forall|a: int, b: int|
        0 <= a < b < clusters.len() ==> outranks(#[trigger] clusters[a], #[trigger] clusters[b])
}

/// How many engrams the clusters `from..to` hold.
pub open spec fn held_by(clusters: Seq<Cluster>, from: int, to: int) -> nat
    decreases to - from,
{
    if from >= to || to > clusters.len() {
        0
    } else {
        held_by(clusters, from, to - 1) + clusters[to - 1].members@.len()
    }
}

proof fn lemma_members_valid(labels: Seq<i64>, label: i64)
    requires
        labels.len() <= usize::MAX,
    ensures
        forall|m: int|
            0 <= m < members_of(labels, label).len() ==> (#[trigger] members_of(
                labels,
                label,
            )[m]) < labels.len() && labels[members_of(labels, label)[m] as int] == label,
        members_of(labels, label).len() <= labels.len(),
        members_of(labels, label).len() > 0 <==> labels.contains(label),
    decreases labels.len(),
{
    if labels.len() > 0 {
        let t = labels.drop_last();
        lemma_members_valid(t, label);
        let ms = members_of(labels, label);
        assert forall|m: int| 0 <= m < ms.len() implies (#[trigger] ms[m]) < labels.len()
            && labels[ms[m] as int] == label by {
            if m < members_of(t, label).len() {
                assert(ms[m] == members_of(t, label)[m]);
            }
        }
        if labels.last() == label {
            assert(labels[labels.len() - 1] == label);
        } else if labels.contains(label) {
            let i = labels.index_of(label);
            assert(t[i] == label);
        } else if members_of(t, label).len() > 0 {
            let m = members_of(t, label)[0];
            assert(labels[m as int] == label);
        }
    }
}

/// Groups the positions by label, in the order in which labels first occur.
/// Returns the clusters and the positions of noise.
fn group_by_label(labels: &Vec<i64>) -> (r: (Vec<Cluster>, Vec<usize>))
    ensures
        groups(labels@, r.0@),
        r.1@ == members_of(labels@, NOISE),
{
    let mut clusters: Vec<Cluster> = Vec::new();
    let mut noise: Vec<usize> = Vec::new();
    let mut i: usize = 0;
    while i < labels.len()
        invariant
            i <= labels@.len(),
            groups(labels@.take(i as int), clusters@),
            noise@ == members_of(labels@.take(i as int), NOISE),
        decreases labels@.len() - i,
    {
        let label: i64 = labels[i];
        let ghost seen = labels@.take(i as int);
        let ghost next = labels@.take(i + 1);
        let ghost before = clusters@;
        proof {
            assert(next.drop_last() =~= seen);
            assert(next.last() == label);
        }
        if label == NOISE {
            noise.push(i);
        } else {
            let mut k: usize = 0;
            while k < clusters.len() && clusters[k].label != label
                invariant
                    k <= clusters@.len(),
                    clusters@ == before,
                    forall|a: int| 0 <= a < k ==> (#[trigger] clusters@[a]).label != label,
                decreases clusters@.len() - k,
            {
                k += 1;
            }
            if k < clusters.len() {
                clusters[k].members.push(i);
                proof {
                    let now = clusters@;
                    assert forall|a: int, b: int| 0 <= a < b < now.len() implies (
                    #[trigger] now[a]).label != (#[trigger] now[b]).label by {
                        assert(now[a].label == before[a].label);
                        assert(now[b].label == before[b].label);
                    }
                    assert forall|a: int| 0 <= a < now.len() implies (#[trigger] now[a]).label
                        != NOISE && now[a].members@ == members_of(next, now[a].label)
                        && now[a].members@.len() > 0 by {
                        assert(now[a].label == before[a].label);
                    }
                    assert forall|j: int| 0 <= j < next.len() && #[trigger] next[j]
                        != NOISE implies has_label(now, next[j]) by {
                        if j < i {
                            assert(seen[j] == next[j]);
                            let w = choose|w: int|
                                0 <= w < before.len() && (#[trigger] before[w]).label == seen[j];
                            assert(now[w].label == next[j]);
                        } else {
                            assert(now[k as int].label == label);
                        }
                    }
                }
            } else {
                let mut members: Vec<usize> = Vec::new();
                members.push(i);
                clusters.push(Cluster { label, members });
                proof {
                    let now = clusters@;
                    lemma_members_valid(seen, label);
                    if seen.contains(label) {
                        let j = seen.index_of(label);
                        assert(seen[j] != NOISE);
                        assert(has_label(before, label));
                    }
                    assert(members_of(seen, label) =~= Seq::empty());
                    assert(members_of(next, label) =~= seq![i]);
                    assert forall|a: int| 0 <= a < now.len() implies (#[trigger] now[a]).label
                        != NOISE && now[a].members@ == members_of(next, now[a].label)
                        && now[a].members@.len() > 0 by {
                        if a < before.len() {
                            assert(now[a] == before[a]);
                        }
                    }
                    assert forall|a: int, b: int| 0 <= a < b < now.len() implies (
                    #[trigger] now[a]).label != (#[trigger] now[b]).label by {
                        assert(now[a] == before[a]);
                        if b < before.len() {
                            assert(now[b] == before[b]);
                        }
                    }
                    assert forall|j: int| 0 <= j < next.len() && #[trigger] next[j]
                        != NOISE implies has_label(now, next[j]) by {
                        if j < i {
                            assert(seen[j] == next[j]);
                            let w = choose|w: int|
                                0 <= w < before.len() && (#[trigger] before[w]).label == seen[j];
                            assert(now[w].label == next[j]);
                        } else {
                            assert(now[now.len() - 1].label == label);
                        }
                    }
                }
            }
        }
        proof {
            if label == NOISE {
                assert forall|j: int| 0 <= j < next.len() && #[trigger] next[j]
                    != NOISE implies has_label(clusters@, next[j]) by {
                    assert(seen[j] == next[j]);
                }
            }
        }
        i += 1;
    }
    assert(labels@.take(i as int) =~= labels@);
    (clusters, noise)
}

/// Reordering clusters keeps the grouping.
proof fn lemma_groups_reordered(
    labels: Seq<i64>,
    s: Seq<Cluster>,
    t: Seq<Cluster>,
    to_old: spec_fn(int) -> int,
    to_new: spec_fn(int) -> int,
)
    requires
        groups(labels, s),
        s.len() == t.len(),
        forall|k: int|
            0 <= k < t.len() ==> 0 <= #[trigger] to_old(k) < s.len() && t[k] == s[to_old(k)]
                && to_new(to_old(k)) == k,
        forall|k: int|
            0 <= k < s.len() ==> 0 <= #[trigger] to_new(k) < t.len() && s[k] == t[to_new(k)],
    ensures
        groups(labels, t),
{
    assert forall|k: int| 0 <= k < t.len() implies (#[trigger] t[k]).label != NOISE
        && t[k].members@ == members_of(labels, t[k].label) && t[k].members@.len() > 0 by {
        let _ = to_old(k);
    }
    assert forall|a: int, b: int| 0 <= a < b < t.len() implies (#[trigger] t[a]).label != (
    #[trigger] t[b]).label by {
        let (x, y) = (to_old(a), to_old(b));
        assert(to_new(x) == a && to_new(y) == b);
        assert(x != y);
        if x < y {
            assert(s[x].label != s[y].label);
        } else {
            assert(s[y].label != s[x].label);
        }
    }
    assert forall|i: int| 0 <= i < labels.len() && #[trigger] labels[i] != NOISE implies has_label(
        t,
        labels[i],
    ) by {
        let w = choose|w: int| 0 <= w < s.len() && (#[trigger] s[w]).label == labels[i];
        assert(t[to_new(w)].label == labels[i]);
    }
}

/// Of two clusters with different labels one goes before the other.
proof fn lemma_outranks_total(labels: Seq<i64>, a: Cluster, b: Cluster)
    requires
        labels.len() <= usize::MAX,
        a.label != b.label,
        a.members@ == members_of(labels, a.label),
        b.members@ == members_of(labels, b.label),
        a.members@.len() > 0,
        b.members@.len() > 0,
    ensures
        outranks(a, b) || outranks(b, a),
{
    lemma_members_valid(labels, a.label);
    lemma_members_valid(labels, b.label);
    assert(labels[a.members@[0] as int] == a.label);
    assert(labels[b.members@[0] as int] == b.label);
}

fn goes_before(a: &Cluster, b: &Cluster) -> (r: bool)
    requires
        a.members@.len() > 0,
        b.members@.len() > 0,
    ensures
        r == outranks(*a, *b),
{
    a.members.len() > b.members.len() || (a.members.len() == b.members.len() && a.members[0]
        < b.members[0])
}

/// Sorts the clusters, largest first.
fn rank_clusters(labels: &Vec<i64>, clusters: Vec<Cluster>) -> (r: Vec<Cluster>)
    requires
        groups(labels@, clusters@),
    ensures
        groups(labels@, r@),
        ranked(r@),
        r@.len() == clusters@.len(),
{
    let mut rest = clusters;
    let mut sorted: Vec<Cluster> = Vec::new();
    assert(rest@ + sorted@ =~= rest@);
    assert(labels@.len() == labels.len());
    while rest.len() > 0
        invariant
            groups(labels@, rest@ + sorted@),
            ranked(sorted@),
            labels@.len() <= usize::MAX,
            rest@.len() + sorted@.len() == clusters@.len(),
        decreases rest@.len(),
    {
        let ghost all = rest@ + sorted@;
        let ghost left = rest@.len() - 1;
        let ghost old_sorted = sorted@;
        let c = rest.pop().unwrap();
        assert(all[left] == c);
        let mut p: usize = 0;
        assert forall|q: int| 0 <= q < sorted@.len() implies (#[trigger] sorted@[q]).members@.len()
            > 0 && sorted@[q].label != c.label && sorted@[q].members@ == members_of(
            labels@,
            sorted@[q].label,
        ) by {
            assert(sorted@[q] == all[left + 1 + q]);
            assert(all[left].label != all[left + 1 + q].label);
        }
        while p < sorted.len() && !goes_before(&c, &sorted[p])
            invariant
                p <= sorted@.len(),
                sorted@ == old_sorted,
                labels@.len() <= usize::MAX,
                c.members@.len() > 0,
                c.members@ == members_of(labels@, c.label),
                forall|q: int|
                    0 <= q < sorted@.len() ==> (#[trigger] sorted@[q]).members@.len() > 0
                        && sorted@[q].label != c.label && sorted@[q].members@ == members_of(
                        labels@,
                        sorted@[q].label,
                    ),
                forall|q: int| 0 <= q < p ==> outranks(#[trigger] sorted@[q], c),
            decreases sorted@.len() - p,
        {
            proof {
                lemma_outranks_total(labels@, c, sorted@[p as int]);
            }
            p += 1;
        }
        sorted.insert(p, c);
        proof {
            let now = sorted@;
            assert(now =~= old_sorted.insert(p as int, c));
            assert forall|a: int, b: int| 0 <= a < b < now.len() implies outranks(
                #[trigger] now[a],
                #[trigger] now[b],
            ) by {
                let x = if a < p {
                    a
                } else {
                    a - 1
                };
                let y = if b < p {
                    b
                } else {
                    b - 1
                };
                if a != p && b != p {
                    assert(outranks(old_sorted[x], old_sorted[y]));
                } else if a == p {
                    assert(now[b] == old_sorted[b - 1]);
                    if b - 1 > p {
                        assert(outranks(old_sorted[p as int], old_sorted[b - 1]));
                    }
                } else {
                    assert(now[a] == old_sorted[a]);
                }
            }
            let t = rest@ + now;
            let to_old = |k: int|
                if k < left {
                    k
                } else if k - left < p {
                    k + 1
                } else if k - left == p {
                    left
                } else {
                    k
                };
            let to_new = |k: int|
                if k < left {
                    k
                } else if k == left {
                    left + p
                } else if k - left - 1 < p {
                    k - 1
                } else {
                    k
                };
            lemma_groups_reordered(labels@, all, t, to_old, to_new);
        }
    }
    assert(rest@ + sorted@ =~= sorted@);
    sorted
}

/// The labels of clusters.
pub open spec fn labels_of(clusters: Seq<Cluster>) -> Seq<i64> {
    clusters.map_values(|c: Cluster| c.label)
}

/// How many positions carry one of the labels.
spec fn carried(labels: Seq<i64>, wanted: Seq<i64>) -> nat
    decreases wanted.len(),
{
    if wanted.len() == 0 {
        0
    } else {
        carried(labels, wanted.drop_last()) + members_of(labels, wanted.last()).len()
    }
}

proof fn lemma_carried_step(labels: Seq<i64>, wanted: Seq<i64>)
    requires
        labels.len() > 0,
        forall|a: int, b: int| 0 <= a < b < wanted.len() ==> wanted[a] != wanted[b],
    ensures
        carried(labels, wanted) == carried(labels.drop_last(), wanted) + if wanted.contains(
            labels.last(),
        ) {
            1nat
        } else {
            0nat
        },
    decreases wanted.len(),
{
    if wanted.len() > 0 {
        let w = wanted.drop_last();
        lemma_carried_step(labels, w);
        let x = labels.last();
        if wanted.last() == x {
            assert(wanted[wanted.len() - 1] == x);
            if w.contains(x) {
                let i = w.index_of(x);
                assert(wanted[i] == x);
            }
        } else if wanted.contains(x) {
            let i = wanted.index_of(x);
            assert(w[i] == x);
        } else if w.contains(x) {
            let i = w.index_of(x);
            assert(wanted[i] == x);
        }
    }
}

proof fn lemma_all_carried(labels: Seq<i64>, wanted: Seq<i64>)
    requires
        forall|a: int, b: int| 0 <= a < b < wanted.len() ==> wanted[a] != wanted[b],
        !wanted.contains(NOISE),
        forall|i: int|
            0 <= i < labels.len() && #[trigger] labels[i] != NOISE ==> wanted.contains(labels[i]),
    ensures
        carried(labels, wanted) + members_of(labels, NOISE).len() == labels.len(),
    decreases labels.len(),
{
    if labels.len() == 0 {
        lemma_carried_of_nothing(labels, wanted);
    } else {
        let t = labels.drop_last();
        assert forall|i: int| 0 <= i < t.len() && #[trigger] t[i] != NOISE implies wanted.contains(
            t[i],
        ) by {
            assert(labels[i] == t[i]);
        }
        lemma_all_carried(t, wanted);
        lemma_carried_step(labels, wanted);
        assert(labels[labels.len() - 1] == labels.last());
    }
}

proof fn lemma_carried_of_nothing(labels: Seq<i64>, wanted: Seq<i64>)
    requires
        labels.len() == 0,
    ensures
        carried(labels, wanted) == 0,
    decreases wanted.len(),
{
    if wanted.len() > 0 {
        lemma_carried_of_nothing(labels, wanted.drop_last());
    }
}

proof fn lemma_held_is_carried(labels: Seq<i64>, clusters: Seq<Cluster>, to: int)
    requires
        groups(labels, clusters),
        0 <= to <= clusters.len(),
    ensures
        held_by(clusters, 0, to) == carried(labels, labels_of(clusters).take(to)),
    decreases to,
{
    if to > 0 {
        lemma_held_is_carried(labels, clusters, to - 1);
        let w = labels_of(clusters).take(to);
        assert(w.drop_last() =~= labels_of(clusters).take(to - 1));
        assert(w.last() == clusters[to - 1].label);
    }
}

/// Every engram is either in exactly one cluster or noise: the cluster sizes and
/// the noise add up to the number of labels.
pub proof fn grouping_counts_every_engram(labels: Seq<i64>, clusters: Seq<Cluster>)
    requires
        groups(labels, clusters),
    ensures
        held_by(clusters, 0, clusters.len() as int) + members_of(labels, NOISE).len()
            == labels.len(),
{
    let wanted = labels_of(clusters);
    assert forall|a: int, b: int| 0 <= a < b < wanted.len() implies wanted[a] != wanted[b] by {
        assert(clusters[a].label != clusters[b].label);
    }
    if wanted.contains(NOISE) {
        let i = wanted.index_of(NOISE);
        assert(clusters[i].label == NOISE);
    }
    assert forall|i: int| 0 <= i < labels.len() && #[trigger] labels[i]
        != NOISE implies wanted.contains(labels[i]) by {
        let w = choose|w: int| 0 <= w < clusters.len() && (#[trigger] clusters[w]).label == labels[i];
        assert(wanted[w] == labels[i]);
    }
    lemma_all_carried(labels, wanted);
    lemma_held_is_carried(labels, clusters, clusters.len() as int);
    assert(wanted.take(clusters.len() as int) =~= wanted);
}

/// The edges of one engram, in the order in which they are moved.
#[derive(Clone, Copy, Debug, PartialEq, Eq, Structural)]
pub enum EdgeMove {
    DropRecalls,
    DropAbstractsTo,
    AddRecalls,
    AddAbstractsTo,
}

/// Where a split stands.
#[derive(Debug)]
pub enum SplitStage {
    /// The next child has no name yet.
    Naming,
    /// The child is named and not stored yet.
    Creating { name: String },
    /// The child is stored and not linked to its parent yet.
    Linking { child: u64 },
    /// The edges of the `member`-th engram are on their way to the child.
    Moving { child: u64, member: usize, edge: EdgeMove },
    /// Only the parent's count is left.
    Settling,
    Done,
}

/// What a split asks for next.
#[derive(Clone, Copy, Debug, PartialEq, Eq, Structural)]
pub enum SplitRequest {
    /// Name the cluster; `index` counts from one.
    NameCluster { index: usize },
    /// Store a child concept of this many engrams.
    CreateChild { source_count: i64 },
    /// Link the parent to the child by `SpawnedFrom`.
    LinkSpawned { parent: i64, child: i64 },
    /// Drop the edge from the engram to the parent, or add one to the child.
    MoveEdge { edge: EdgeMove, engram: i64, concept: i64 },
    /// Store the count that stays with the parent.
    SetSourceCount { concept: i64, count: i64 },
    /// Nothing is left.
    Finish { report: MitosisReport },
}

/// What came of a request.
#[derive(Debug)]
pub enum SplitReply {
    Named { name: String },
    Created { child: u64 },
    Stored,
}

/// A split under way.
#[derive(Debug)]
pub struct SplitRun {
    pub concept_id: u64,
    /// The parent's id as a query parameter.
    pub parent: i64,
    /// The ids of the engrams, by position.
    pub ids: Vec<u64>,
    /// The clusters, largest first.
    pub clusters: Vec<Cluster>,
    /// How many engrams are noise.
    pub noise: usize,
    pub max_children: usize,
    /// The cluster at work.
    pub rank: usize,
    pub stage: SplitStage,
    pub children_created: u64,
    pub reassigned: u64,
}

/// How a split begins.
#[derive(Debug)]
pub enum SplitStart {
    /// There is nothing to split.
    Nothing { report: MitosisReport },
    Running { run: SplitRun },
}

/// How many children a split may make of `clusters` clusters.
pub open spec fn child_count(clusters: nat, max_children: nat) -> nat {
    if clusters <= max_children {
        clusters
    } else {
        max_children
    }
}

/// The number of requests that the clusters `from..to` need: a name, a node, a
/// link, and four edges for each engram.
pub open spec fn work_on(clusters: Seq<Cluster>, from: int, to: int) -> nat
    decreases to - from,
{
    if from >= to || from < 0 || to > clusters.len() {
        0
    } else {
        3 + 4 * clusters[from].members@.len() + work_on(clusters, from + 1, to)
    }
}

impl EdgeMove {
    /// How many of an engram's moves come before this one.
    pub open spec fn place(self) -> nat {
        match self {
            EdgeMove::DropRecalls => 0,
            EdgeMove::DropAbstractsTo => 1,
            EdgeMove::AddRecalls => 2,
            EdgeMove::AddAbstractsTo => 3,
        }
    }
}

impl SplitRun {
    /// How many clusters become children.
    pub open spec fn children(&self) -> nat {
        child_count(self.clusters@.len(), self.max_children as nat)
    }

    /// How many engrams end up with children.
    pub open spec fn moving_total(&self) -> nat {
        held_by(self.clusters@, 0, self.children() as int)
    }

    /// How many engrams the clusters hold.
    pub open spec fn clustered(&self) -> nat {
        held_by(self.clusters@, 0, self.clusters@.len() as int)
    }

    /// What every run keeps: clusters and noise make up the engrams, and the
    /// counters say how far the run has come.
    pub open spec fn valid(&self) -> bool {
        &&& self.concept_id <= MAX_PARAM
        &&& self.parent == self.concept_id
        &&& self.ids@.len() <= i64::MAX
        &&& self.clustered() + self.noise == self.ids@.len()
        &&& forall|k: int|
            0 <= k < self.clusters@.len() ==> (#[trigger] self.clusters@[k]).members@.len() > 0
        &&& forall|k: int, m: int|
            0 <= k < self.clusters@.len() && 0 <= m < self.clusters@[k].members@.len()
                ==> #[trigger] self.clusters@[k].members@[m] < self.ids@.len()
        &&& self.children_created == self.rank
        &&& match self.stage {
            SplitStage::Settling | SplitStage::Done => self.rank == self.children()
                && self.reassigned == self.moving_total(),
            SplitStage::Moving { child, member, edge } => self.rank < self.children() && child
                <= MAX_PARAM && member < self.clusters@[self.rank as int].members@.len()
                && self.reassigned == held_by(self.clusters@, 0, self.rank as int) + member,
            _ => self.rank < self.children() && self.reassigned == held_by(
                self.clusters@,
                0,
                self.rank as int,
            ),
        }
    }

    /// How many requests are still to be answered.
    pub open spec fn remaining(&self) -> int {
        let after = work_on(self.clusters@, self.rank + 1, self.children() as int) as int;
        let size = self.clusters@[self.rank as int].members@.len() as int;
        match self.stage {
            SplitStage::Done => 0,
            SplitStage::Settling => 1,
            SplitStage::Naming => 1 + after + 4 * size + 3,
            SplitStage::Creating { name } => 1 + after + 4 * size + 2,
            SplitStage::Linking { child } => 1 + after + 4 * size + 1,
            SplitStage::Moving { child, member, edge } => 1 + after + 4 * (size - member)
                - edge.place(),
        }
    }

    /// The report of a finished run.
    pub open spec fn outcome(&self) -> MitosisReport {
        MitosisReport {
            concept_id: self.concept_id,
            children_created: self.children() as u64,
            reassigned: self.moving_total() as u64,
            noise_kept: (self.ids@.len() - self.moving_total()) as u64,
        }
    }

    /// The request of the stage at hand, or the id that does not fit a query.
    pub open spec fn asked(&self) -> Result<SplitRequest, u64> {
        match self.stage {
            SplitStage::Naming => Ok(SplitRequest::NameCluster { index: (self.rank + 1) as usize }),
            SplitStage::Creating { name } => Ok(
                SplitRequest::CreateChild {
                    source_count: self.clusters@[self.rank as int].members@.len() as i64,
                },
            ),
            SplitStage::Linking { child } => if child <= MAX_PARAM {
                Ok(SplitRequest::LinkSpawned { parent: self.parent, child: child as i64 })
            } else {
                Err(child)
            },
            SplitStage::Moving { child, member, edge } => {
                let id = self.ids@[self.clusters@[self.rank as int].members@[member as int] as int];
                if id <= MAX_PARAM {
                    Ok(
                        SplitRequest::MoveEdge {
                            edge,
                            engram: id as i64,
                            concept: match edge {
                                EdgeMove::DropRecalls | EdgeMove::DropAbstractsTo => self.parent,
                                EdgeMove::AddRecalls | EdgeMove::AddAbstractsTo => child as i64,
                            },
                        },
                    )
                } else {
                    Err(id)
                }
            },
            SplitStage::Settling => Ok(
                SplitRequest::SetSourceCount {
                    concept: self.parent,
                    count: (self.ids@.len() - self.moving_total()) as i64,
                },
            ),
            SplitStage::Done => Ok(SplitRequest::Finish { report: self.outcome() }),
        }
    }

    /// The stage at hand has a request, and the reply fits it.
    pub open spec fn expects(&self, reply: SplitReply) -> bool {
        &&& self.asked() is Ok
        &&& match self.stage {
            SplitStage::Naming => reply is Named,
            SplitStage::Creating { name } => reply is Created,
            SplitStage::Linking { .. } | SplitStage::Moving { .. }
            | SplitStage::Settling => reply is Stored,
            SplitStage::Done => false,
        }
    }

    /// The stage, rank and count of moved engrams after a reply.
    pub open spec fn stage_after(&self, reply: SplitReply, next: SplitRun) -> bool {
        match self.stage {
            SplitStage::Naming => next.rank == self.rank && (next.stage matches SplitStage::Creating {
                name,
            } && name@ == reply->name@),
            SplitStage::Creating { name } => next.rank == self.rank && next.stage
                == (SplitStage::Linking { child: reply->child }),
            SplitStage::Linking { child } => next.rank == self.rank && next.stage
                == (SplitStage::Moving { child, member: 0, edge: EdgeMove::DropRecalls }),
            SplitStage::Moving { child, member, edge } => match edge {
                EdgeMove::DropRecalls => next.rank == self.rank && next.stage
                    == (SplitStage::Moving { child, member, edge: EdgeMove::DropAbstractsTo }),
                EdgeMove::DropAbstractsTo => next.rank == self.rank && next.stage
                    == (SplitStage::Moving { child, member, edge: EdgeMove::AddRecalls }),
                EdgeMove::AddRecalls => next.rank == self.rank && next.stage
                    == (SplitStage::Moving { child, member, edge: EdgeMove::AddAbstractsTo }),
                EdgeMove::AddAbstractsTo => if member + 1
                    < self.clusters@[self.rank as int].members@.len() {
                    next.rank == self.rank && next.stage == (SplitStage::Moving {
                        child,
                        member: (member + 1) as usize,
                        edge: EdgeMove::DropRecalls,
                    })
                } else {
                    next.rank == self.rank + 1 && next.stage == if self.rank + 1 < self.children() {
                        SplitStage::Naming
                    } else {
                        SplitStage::Settling
                    }
                },
            },
            SplitStage::Settling => next.rank == self.rank && next.stage == SplitStage::Done,
            SplitStage::Done => false,
        }
    }

    /// What no reply changes.
    pub open spec fn same_task(&self, next: SplitRun) -> bool {
        &&& next.concept_id == self.concept_id
        &&& next.parent == self.parent
        &&& next.ids == self.ids
        &&& next.clusters == self.clusters
        &&& next.noise == self.noise
        &&& next.max_children == self.max_children
    }
}

proof fn lemma_held_grows(clusters: Seq<Cluster>, a: int, b: int)
    requires
        0 <= a <= b <= clusters.len(),
    ensures
        held_by(clusters, 0, a) <= held_by(clusters, 0, b),
    decreases b - a,
{
    if a < b {
        lemma_held_grows(clusters, a, b - 1);
    }
}

/// At most one label besides noise.
pub open spec fn undivided(labels: Seq<i64>) -> bool {
    forall|i: int, j: int|
        0 <= i < labels.len() && 0 <= j < labels.len() && #[trigger] labels[i] != NOISE
            && #[trigger] labels[j] != NOISE ==> labels[i] == labels[j]
}

proof fn lemma_undivided(labels: Seq<i64>, clusters: Seq<Cluster>)
    requires
        groups(labels, clusters),
        labels.len() <= usize::MAX,
    ensures
        undivided(labels) <==> clusters.len() <= 1,
{
    if clusters.len() <= 1 {
        assert forall|i: int, j: int|
            0 <= i < labels.len() && 0 <= j < labels.len() && #[trigger] labels[i] != NOISE
                && #[trigger] labels[j] != NOISE implies labels[i] == labels[j] by {
            assert(has_label(clusters, labels[i]));
            assert(has_label(clusters, labels[j]));
        }
    } else {
        lemma_members_valid(labels, clusters[0].label);
        lemma_members_valid(labels, clusters[1].label);
        let i = clusters[0].members@[0] as int;
        let j = clusters[1].members@[0] as int;
        assert(labels[i] == clusters[0].label);
        assert(labels[j] == clusters[1].label);
        assert(clusters[0].label != clusters[1].label);
    }
}

impl SplitRun {
    /// Begins a split of the engrams `ids`, labelled by cluster. Fewer than two
    /// engrams, or fewer than two clusters, are left as they are.
    pub fn begin(
        concept_id: u64,
        parent: i64,
        ids: Vec<u64>,
        labels: &Vec<i64>,
        max_children: usize,
    ) -> (r: SplitStart)
        requires
            parent == concept_id,
            labels@.len() == ids@.len(),
            ids@.len() <= i64::MAX,
        ensures
            match r {
                SplitStart::Nothing { report } => (ids@.len() < 2 || undivided(labels@)) && report == (
                MitosisReport {
                    concept_id,
                    children_created: 0,
                    reassigned: 0,
                    noise_kept: if ids@.len() < 2 {
                        0
                    } else {
                        members_of(labels@, NOISE).len() as u64
                    },
                }),
                SplitStart::Running { run } => {
                    &&& ids@.len() >= 2
                    &&& !undivided(labels@)
                    &&& run.valid()
                    &&& run.concept_id == concept_id
                    &&& run.ids == ids
                    &&& groups(labels@, run.clusters@)
                    &&& ranked(run.clusters@)
                    &&& run.noise == members_of(labels@, NOISE).len()
                    &&& run.max_children == max_children
                    &&& run.rank == 0
                    &&& run.stage == if max_children == 0 {
                        SplitStage::Settling
                    } else {
                        SplitStage::Naming
                    }
                },
            },
    {
        if ids.len() < 2 {
            return SplitStart::Nothing {
                report: MitosisReport {
                    concept_id,
                    children_created: 0,
                    reassigned: 0,
                    noise_kept: 0,
                },
            };
        }
        let (unsorted, noise) = group_by_label(labels);
        let clusters = rank_clusters(labels, unsorted);
        proof {
            lemma_undivided(labels@, clusters@);
            grouping_counts_every_engram(labels@, clusters@);
        }
        if clusters.len() <= 1 {
            return SplitStart::Nothing {
                report: MitosisReport {
                    concept_id,
                    children_created: 0,
                    reassigned: 0,
                    noise_kept: noise.len() as u64,
                },
            };
        }
        let stage = if max_children == 0 {
            SplitStage::Settling
        } else {
            SplitStage::Naming
        };
        let run = SplitRun {
            concept_id,
            parent,
            ids,
            clusters,
            noise: noise.len(),
            max_children,
            rank: 0,
            stage,
            children_created: 0,
            reassigned: 0,
        };
        proof {
            assert forall|k: int, m: int|
                0 <= k < run.clusters@.len() && 0 <= m
                    < run.clusters@[k].members@.len() implies #[trigger] run.clusters@[k].members@[m]
                < run.ids@.len() by {
                lemma_members_valid(labels@, run.clusters@[k].label);
            }
        }
        SplitStart::Running { run }
    }

    /// The name of the child at work, once it has one.
    pub fn child_name(&self) -> (r: Option<&str>)
        ensures
            match r {
                Some(n) => self.stage matches SplitStage::Creating { name } && n@ == name@,
                None => !(self.stage is Creating),
            },
    {
        match &self.stage {
            SplitStage::Creating { name } => Some(name.as_str()),
            _ => None,
        }
    }

    /// What to do next. Fails where the id of a node does not fit a query.
    pub fn request(&self) -> (r: Outcome<SplitRequest>)
        requires
            self.valid(),
        ensures
            match r {
                Ok(request) => self.asked() == Ok::<SplitRequest, u64>(request),
                Err(e) => match self.asked() {
                    Ok(_) => false,
                    Err(id) => e@ == ErrorView::Internal("node id overflow: "@ + decimal(id as nat)),
                },
            },
    {
        proof {
            lemma_held_grows(
                self.clusters@,
                self.children() as int,
                self.clusters@.len() as int,
            );
            if self.rank < self.children() {
                lemma_held_grows(self.clusters@, self.rank + 1, self.clusters@.len() as int);
            }
        }
        match &self.stage {
            SplitStage::Naming => Ok(SplitRequest::NameCluster { index: self.rank + 1 }),
            SplitStage::Creating { name: _ } => Ok(
                SplitRequest::CreateChild {
                    source_count: self.clusters[self.rank].members.len() as i64,
                },
            ),
            SplitStage::Linking { child } => match to_i64(*child) {
                Ok(child) => Ok(SplitRequest::LinkSpawned { parent: self.parent, child }),
                Err(e) => Err(e),
            },
            SplitStage::Moving { child, member, edge } => {
                let position: usize = self.clusters[self.rank].members[*member];
                match to_i64(self.ids[position]) {
                    Ok(engram) => {
                        let concept: i64 = match edge {
                            EdgeMove::DropRecalls | EdgeMove::DropAbstractsTo => self.parent,
                            EdgeMove::AddRecalls | EdgeMove::AddAbstractsTo => *child as i64,
                        };
                        Ok(SplitRequest::MoveEdge { edge: *edge, engram, concept })
                    },
                    Err(e) => Err(e),
                }
            },
            SplitStage::Settling => Ok(
                SplitRequest::SetSourceCount {
                    concept: self.parent,
                    count: (self.ids.len() as u64 - self.reassigned) as i64,
                },
            ),
            SplitStage::Done => Ok(
                SplitRequest::Finish {
                    report: MitosisReport {
                        concept_id: self.concept_id,
                        children_created: self.children_created,
                        reassigned: self.reassigned,
                        noise_kept: self.ids.len() as u64 - self.reassigned,
                    },
                },
            ),
        }
    }

    /// Takes the reply to the request at hand.
    pub fn advance(self, reply: SplitReply) -> (r: SplitRun)
        requires
            self.valid(),
            self.expects(reply),
        ensures
            r.valid(),
            self.same_task(r),
            self.stage_after(reply, r),
            r.remaining() == self.remaining() - 1,
    {
        proof {
            lemma_held_grows(self.clusters@, self.children() as int, self.clusters@.len() as int);
            if self.rank < self.children() {
                lemma_held_grows(self.clusters@, self.rank + 1, self.clusters@.len() as int);
            }
        }
        let mut next = self;
        let stage = match (next.stage, reply) {
            (SplitStage::Naming, SplitReply::Named { name }) => SplitStage::Creating { name },
            (SplitStage::Creating { name: _ }, SplitReply::Created { child }) => SplitStage::Linking {
                child,
            },
            (SplitStage::Linking { child }, _) => SplitStage::Moving {
                child,
                member: 0,
                edge: EdgeMove::DropRecalls,
            },
            (SplitStage::Moving { child, member, edge }, _) => match edge {
                EdgeMove::DropRecalls => SplitStage::Moving {
                    child,
                    member,
                    edge: EdgeMove::DropAbstractsTo,
                },
                EdgeMove::DropAbstractsTo => SplitStage::Moving {
                    child,
                    member,
                    edge: EdgeMove::AddRecalls,
                },
                EdgeMove::AddRecalls => SplitStage::Moving {
                    child,
                    member,
                    edge: EdgeMove::AddAbstractsTo,
                },
                EdgeMove::AddAbstractsTo => {
                    next.reassigned = next.reassigned + 1;
                    if member < next.clusters[next.rank].members.len() - 1 {
                        SplitStage::Moving {
                            child,
                            member: member + 1,
                            edge: EdgeMove::DropRecalls,
                        }
                    } else {
                        next.rank = next.rank + 1;
                        next.children_created = next.children_created + 1;
                        if next.rank < next.clusters.len() && next.rank < next.max_children {
                            SplitStage::Naming
                        } else {
                            SplitStage::Settling
                        }
                    }
                },
            },
            (_, _) => SplitStage::Done,
        };
        next.stage = stage;
        next
    }
}

/// A split loses no engram: what moved to children and what stayed with the
/// parent add up, and no more children are made than allowed.
pub proof fn split_conserves_engrams(run: SplitRun)
    requires
        run.valid(),
    ensures
        run.outcome().reassigned + run.outcome().noise_kept == run.ids@.len(),
        run.outcome().children_created <= run.max_children,
        run.outcome().noise_kept >= run.noise,
{
    lemma_held_grows(run.clusters@, run.children() as int, run.clusters@.len() as int);
}

/// A fresh split ends after a fixed number of replies: three for each child,
/// four for each engram that moves, and one for the parent.
pub proof fn split_takes_fixed_work(run: SplitRun)
    requires
        run.valid(),
        run.rank == 0,
        run.stage is Naming || (run.stage is Settling && run.children() == 0),
    ensures
        run.remaining() == 1 + 3 * run.children() + 4 * run.moving_total(),
{
    lemma_work(run.clusters@, 0, run.children() as int);
}

proof fn lemma_held_splits(clusters: Seq<Cluster>, from: int, to: int)
    requires
        0 <= from < to <= clusters.len(),
    ensures
        held_by(clusters, from, to) == clusters[from].members@.len() + held_by(
            clusters,
            from + 1,
            to,
        ),
    decreases to - from,
{
    if from + 1 < to {
        lemma_held_splits(clusters, from, to - 1);
    } else {
        assert(held_by(clusters, from, to - 1) == 0);
    }
}

proof fn lemma_work(clusters: Seq<Cluster>, from: int, to: int)
    requires
        0 <= from <= to <= clusters.len(),
    ensures
        work_on(clusters, from, to) == 3 * (to - from) + 4 * held_by(clusters, from, to),
    decreases to - from,
{
    if from < to {
        lemma_work(clusters, from + 1, to);
        lemma_held_splits(clusters, from, to);
    }
}

/// A split is over exactly when nothing remains.
pub proof fn split_is_over_when_nothing_remains(run: SplitRun)
    requires
        run.valid(),
    ensures
        run.remaining() >= 0,
        run.remaining() == 0 <==> run.stage is Done,
{
}

/// The bits of 0.5: a name is taken from this confidence on.
pub const MIN_CHILD_CONFIDENCE: u64 = 0x3FE0_0000_0000_0000;

/// How often a cluster's name is asked for.
pub const NAMING_MAX_ATTEMPTS: usize = 3;

/// Splits concepts over a chat model.
#[derive(Debug)]
pub struct MitosisSplitter<L> {
    pub llm: L,
}

/// A cluster's name being asked for.
#[derive(Debug)]
pub struct NamingRun {
    pub prompt: String,
    pub current: String,
    pub attempt: usize,
    /// The name to use when no reply gives one.
    pub fallback: String,
}

/// What came of one try.
#[derive(Debug)]
pub enum NamingEvent {
    /// A reply, and the name and confidence that it held, if any.
    Reply { raw: String, named: Option<(String, Double)> },
    /// There was no reply.
    Failed,
}

/// What to do after a try.
#[derive(Debug)]
pub enum NamingStep {
    Ask { run: NamingRun },
    Chosen { name: String },
}

/// The object in a reply that may hold prose around it: from its first brace to
/// its last.
pub open spec fn holds_object(raw: Seq<char>) -> bool {
    exists|from: int, to: int| #[trigger] is_span(raw, '{', '}', from, to) && from < to
}

/// The object in a reply that may hold prose around it.
pub fn extract_json(raw: &str) -> (r: Option<&str>)
    ensures
        match r {
            Some(part) => holds_object(raw@) && is_slice(raw@, '{', '}', part@),
            None => !holds_object(raw@),
        },
{
    match find_span(raw, '{', '}') {
        Some((from, to)) => {
            assert(is_span(raw@, '{', '}', from as int, to as int));
            if from < to {
                Some(raw.substring_char(from, to + 1))
            } else {
                assert forall|a: int, b: int| #[trigger] is_span(raw@, '{', '}', a, b) implies a
                    >= b by {
                    assert(a == from && b == to);
                }
                None
            }
        },
        None => None,
    }
}

/// The name of a reply, where its confidence is high enough.
pub open spec fn confident_name(named: Option<(String, Double)>) -> Option<Seq<char>> {
    match named {
        Some((name, confidence)) => if (Double { bits: MIN_CHILD_CONFIDENCE }).le(confidence) {
            Some(name@)
        } else {
            None
        },
        None => None,
    }
}

/// The words that follow a reply that was not taken.
pub open spec fn naming_hint() -> Seq<char> {
    "Return ONLY a JSON object with \"name\" (string) and \"confidence\" (number 0-1) fields."@
}

impl<L> MitosisSplitter<L> {
    /// A splitter over a chat model.
    pub fn new(llm: L) -> (r: MitosisSplitter<L>)
        ensures
            r.llm == llm,
    {
        MitosisSplitter { llm }
    }

    /// Begins to name the `index`-th cluster of `parent_name` by its texts.
    pub fn name_cluster(&self, parent_name: &str, snippets: &Vec<String>, index: usize) -> (r:
        NamingRun)
        ensures
            r.valid(),
            r.attempt == 0,
            r.fallback@ == parent_name@ + " #"@ + decimal(index as nat),
            r.current@ == r.prompt@,
            r.prompt@ == "Given these "@ + decimal(snippets@.len()) + " memory snippets about '"@
                + parent_name@ + "', generate a concise, specific concept name (2-6 words):\n\n"@
                + joined(views(snippets@), "\n"@)
                + "\n\nReturn JSON: {\"name\": \"...\", \"confidence\": 0.0-1.0}"@,
    {
        let count = show_u64(snippets.len() as u64);
        let texts = join(snippets, "\n");
        let place = show_u64(index as u64);
        let fallback = parent_name.to_owned().concat(" #").concat(place.as_str());
        let prompt = "Given these ".to_owned().concat(count.as_str()).concat(
            " memory snippets about '",
        ).concat(parent_name).concat(
            "', generate a concise, specific concept name (2-6 words):\n\n",
        ).concat(texts.as_str()).concat(
            "\n\nReturn JSON: {\"name\": \"...\", \"confidence\": 0.0-1.0}",
        );
        let current = prompt.clone();
        NamingRun { prompt, current, attempt: 0, fallback }
    }
}

impl NamingRun {
    pub open spec fn valid(&self) -> bool {
        self.attempt < NAMING_MAX_ATTEMPTS
    }

    /// The next try asks `current`; without one left the fallback is taken.
    pub open spec fn asks_again(&self, current: Seq<char>, r: NamingStep) -> bool {
        if self.attempt + 1 < NAMING_MAX_ATTEMPTS {
            r matches NamingStep::Ask { run } && run.valid() && run.attempt == self.attempt + 1
                && run.prompt@ == self.prompt@ && run.fallback@ == self.fallback@ && run.current@
                == current
        } else {
            r matches NamingStep::Chosen { name } && name@ == self.fallback@
        }
    }

    /// What a try leads to.
    pub open spec fn went_on(self, event: NamingEvent, r: NamingStep) -> bool {
        match event {
            NamingEvent::Reply { raw, named } => match confident_name(named) {
                Some(given) => r matches NamingStep::Chosen { name } && name@ == given,
                None => self.asks_again(
                    self.prompt@
                        + "\n\nYour previous response was not valid JSON or had low confidence. "@
                        + naming_hint() + "\nPrevious response:\n"@ + raw@,
                    r,
                ),
            },
            NamingEvent::Failed => self.asks_again(
                self.prompt@ + "\n\nPrevious attempt failed. "@ + naming_hint(),
                r,
            ),
        }
    }

    /// Decides what a try leads to: a name of enough confidence is taken.
    pub fn step(self, event: NamingEvent) -> (r: NamingStep)
        requires
            self.valid(),
        ensures
            self.went_on(event, r),
    {
        let hint = "Return ONLY a JSON object with \"name\" (string) and \"confidence\" (number 0-1) fields.";
        let current = match event {
            NamingEvent::Reply { raw, named } => {
                if let Some((name, confidence)) = named {
                    if (Double { bits: MIN_CHILD_CONFIDENCE }).at_most(confidence) {
                        return NamingStep::Chosen { name };
                    }
                }
                self.prompt.clone().concat(
                    "\n\nYour previous response was not valid JSON or had low confidence. ",
                ).concat(hint).concat("\nPrevious response:\n").concat(raw.as_str())
            },
            NamingEvent::Failed => self.prompt.clone().concat("\n\nPrevious attempt failed. ").concat(
                hint,
            ),
        };
        if self.attempt + 1 < NAMING_MAX_ATTEMPTS {
            NamingStep::Ask {
                run: NamingRun {
                    prompt: self.prompt,
                    current,
                    attempt: self.attempt + 1,
                    fallback: self.fallback,
                },
            }
        } else {
            NamingStep::Chosen { name: self.fallback }
        }
    }
}

/// A name that the model is sure of, with a confidence of one half or more, is taken as
/// it stands on any try, and no other is.
pub proof fn confident_names_are_taken(
    run: NamingRun,
    raw: String,
    name: String,
    confidence: Double,
    r: NamingStep,
)
    requires
        run.valid(),
        run.went_on(NamingEvent::Reply { raw, named: Some((name, confidence)) }, r),
    ensures
        (Double { bits: 0x3FE0_0000_0000_0000 }).le(confidence) ==> (r matches NamingStep::Chosen {
            name: chosen,
        } && chosen@ == name@),
        !(Double { bits: 0x3FE0_0000_0000_0000 }).le(confidence) && run.attempt < 2 ==> r is Ask,
{
}

/// A child is named after its parent only where the third of the tries gave no name;
/// until then it is asked for again, with the same question at the start.
pub proof fn names_are_asked_for_again(run: NamingRun, event: NamingEvent, r: NamingStep)
    requires
        run.valid(),
        run.went_on(event, r),
        event is Failed || (event matches NamingEvent::Reply { named, .. } && named is None),
    ensures
        run.attempt < 2 ==> (r matches NamingStep::Ask { run: next }
            && next.attempt == run.attempt + 1 && next.prompt@ == run.prompt@ && next.fallback@
            == run.fallback@ && run.prompt@.is_prefix_of(next.current@)),
        run.attempt == 2 ==> (r matches NamingStep::Chosen { name } && name@
            == run.fallback@),
{
    if let NamingStep::Ask { run: next } = r {
        let n = run.prompt@.len() as int;
        assert(next.current@.take(n) =~= run.prompt@);
        assert(run.prompt@.is_prefix_of(next.current@));
    }
}

/// A split asks about the cluster at hand: its name counted from one, a child with
/// as many sources as it has members, and the edges of each member from the parent
/// to the child; at the end the parent keeps what no child took.
pub proof fn splits_ask_about_the_cluster_at_hand(run: SplitRun)
    requires
        run.valid(),
    ensures
        run.stage is Naming ==> run.asked() == Ok::<SplitRequest, u64>(
            SplitRequest::NameCluster { index: (run.rank + 1) as usize },
        ),
        run.stage is Creating ==> (run.asked() matches Ok(SplitRequest::CreateChild { source_count })
            && source_count == run.clusters@[run.rank as int].members@.len()),
        run.stage matches SplitStage::Linking { child } ==> if child <= i64::MAX {
            run.asked() == Ok::<SplitRequest, u64>(
                SplitRequest::LinkSpawned { parent: run.parent, child: child as i64 },
            )
        } else {
            run.asked() == Err::<SplitRequest, u64>(child)
        },
        run.stage matches SplitStage::Moving { child, member, edge } ==> {
            let id = run.ids@[run.clusters@[run.rank as int].members@[member as int] as int];
            if id > i64::MAX {
                run.asked() == Err::<SplitRequest, u64>(id)
            } else {
                run.asked() matches Ok(SplitRequest::MoveEdge { edge: e, engram, concept }) && e
                    == edge && engram == id && (edge is DropRecalls || edge is DropAbstractsTo
                    ==> concept == run.parent) && (edge is AddRecalls || edge is AddAbstractsTo
                    ==> concept == child)
            }
        },
        run.stage is Settling ==> (run.asked() matches Ok(
            SplitRequest::SetSourceCount { concept, count },
        ) && concept == run.parent && count + run.reassigned == run.ids@.len()),
{
    if run.stage is Creating {
        lemma_held_here(run);
    }
    if run.stage is Settling {
        lemma_held_grows(run.clusters@, run.children() as int, run.clusters@.len() as int);
    }
}

/// The members of the cluster at hand are among the engrams.
proof fn lemma_held_here(run: SplitRun)
    requires
        run.valid(),
        run.rank < run.clusters@.len(),
    ensures
        run.clusters@[run.rank as int].members@.len() <= i64::MAX,
{
    lemma_held_grows(run.clusters@, run.rank + 1, run.clusters@.len() as int);
}

} // verus!
