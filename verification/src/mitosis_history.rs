//! What a whole split of a concept does.

use crate::mitosis::{
    groups, has_label, members_of, ranked, Cluster, EdgeMove, SplitReply, SplitRequest, SplitRun,
    SplitStage,
};
use vstd::prelude::*;

verus! {

/// The members of a label are exactly the places that carry it, in order.
pub proof fn members_carry_their_label(labels: Seq<i64>, label: i64)
    requires
        labels.len() <= usize::MAX,
    ensures
        members_of(labels, label) == Seq::new(labels.len(), |i: int| i as usize).filter(
            |i: usize| labels[i as int] == label,
        ),
    decreases labels.len(),
{
    lemma_members(labels, label, labels);
}

proof fn lemma_members(labels: Seq<i64>, label: i64, all: Seq<i64>)
    requires
        labels.len() <= all.len() <= usize::MAX,
        forall|i: int| 0 <= i < labels.len() ==> labels[i] == all[i],
    ensures
        members_of(labels, label) == Seq::new(labels.len(), |i: int| i as usize).filter(
            |i: usize| all[i as int] == label,
        ),
    decreases labels.len(),
{
    reveal(Seq::filter);
    let places = Seq::new(labels.len(), |i: int| i as usize);
    if labels.len() > 0 {
        let fewer = labels.drop_last();
        lemma_members(fewer, label, all);
        assert(places.drop_last() =~= Seq::new(fewer.len(), |i: int| i as usize));
    }
}

/// Grouping leaves no engram out and puts none twice: two engrams that carry labels
/// are in one cluster together exactly where they carry the same label, and those
/// labelled -1 are in none.
pub proof fn clusters_follow_the_labels(
    labels: Seq<i64>,
    clusters: Seq<Cluster>,
    i: usize,
    k: int,
)
    requires
        groups(labels, clusters),
        labels.len() <= usize::MAX,
        i < labels.len(),
        0 <= k < clusters.len(),
    ensures
        clusters[k].members@.contains(i) <==> labels[i as int] == clusters[k].label,
        clusters[k].label != -1,
        labels[i as int] != -1 ==> exists|h: int|
            0 <= h < clusters.len() && (#[trigger] clusters[h]).label == labels[i as int],
{
    members_carry_their_label(labels, clusters[k].label);
    let places = Seq::new(labels.len(), |i: int| i as usize);
    let pred = |j: usize| labels[j as int] == clusters[k].label;
    broadcast use vstd::seq_lib::group_filter_ensures;

    let members = clusters[k].members@;
    if members.contains(i) {
        let m = choose|m: int| 0 <= m < members.len() && members[m] == i;
        assert(pred(places.filter(pred)[m]));
    }
    if labels[i as int] == clusters[k].label {
        assert(places[i as int] == i);
        assert(pred(places[i as int]));
        assert(places.filter(pred).contains(places[i as int]));
    }
    if labels[i as int] != -1 {
        assert(has_label(clusters, labels[i as int]));
    }
}

/// Larger clusters come first, and of two that are as large the one whose first
/// engram came earlier.
pub proof fn larger_clusters_come_first(clusters: Seq<Cluster>, a: int, b: int)
    requires
        ranked(clusters),
        0 <= a < b < clusters.len(),
    ensures
        clusters[a].members@.len() >= clusters[b].members@.len(),
        clusters[a].members@.len() == clusters[b].members@.len() ==> clusters[a].members@[0]
            < clusters[b].members@[0],
{
}

/// `runs` are the states of a whole split, and `replies` what came of each request.
pub open spec fn is_split(runs: Seq<SplitRun>, replies: Seq<SplitReply>) -> bool {
    &&& runs.len() == replies.len() + 1
    &&& runs[0].rank == 0
    &&& runs[0].max_children > 0
    &&& runs[0].clusters@.len() > 0
    &&& runs[0].stage is Naming
    &&& forall|i: int| 0 <= i < runs.len() ==> (#[trigger] runs[i]).valid()
    &&& forall|i: int|
        0 <= i < replies.len() ==> runs[i].expects(#[trigger] replies[i]) && runs[i].same_task(
            runs[i + 1],
        ) && runs[i].stage_after(replies[i], runs[i + 1])
    &&& runs.last().asked() matches Ok(SplitRequest::Finish { report })
}

/// From request `p` on the engram is taken from the parent and given to the child,
/// by both edges.
pub open spec fn moves(runs: Seq<SplitRun>, engram: u64, parent: u64, child: u64, p: int) -> bool {
    &&& 0 <= p
    &&& p + 4 < runs.len()
    &&& engram <= i64::MAX
    &&& child <= i64::MAX
    &&& runs[p].asked() == Ok::<SplitRequest, u64>(
        SplitRequest::MoveEdge {
            edge: EdgeMove::DropRecalls,
            engram: engram as i64,
            concept: parent as i64,
        },
    )
    &&& runs[p + 1].asked() == Ok::<SplitRequest, u64>(
        SplitRequest::MoveEdge {
            edge: EdgeMove::DropAbstractsTo,
            engram: engram as i64,
            concept: parent as i64,
        },
    )
    &&& runs[p + 2].asked() == Ok::<SplitRequest, u64>(
        SplitRequest::MoveEdge {
            edge: EdgeMove::AddRecalls,
            engram: engram as i64,
            concept: child as i64,
        },
    )
    &&& runs[p + 3].asked() == Ok::<SplitRequest, u64>(
        SplitRequest::MoveEdge {
            edge: EdgeMove::AddAbstractsTo,
            engram: engram as i64,
            concept: child as i64,
        },
    )
}

proof fn lemma_goes_on(runs: Seq<SplitRun>, replies: Seq<SplitReply>, i: int)
    requires
        is_split(runs, replies),
        0 <= i < runs.len(),
        !(runs[i].stage is Done),
    ensures
        i < replies.len(),
        runs[i].expects(replies[i]),
        runs[i].same_task(runs[i + 1]),
        runs[i].stage_after(replies[i], runs[i + 1]),
        runs[i].valid(),
        runs[i + 1].valid(),
{
    if i == runs.len() - 1 {
        assert(runs.last() == runs[i]);
    }
    let reply = replies[i];
    assert(runs[i].valid());
    assert(runs[i + 1].valid());
}

proof fn lemma_same_task(runs: Seq<SplitRun>, replies: Seq<SplitReply>, i: int)
    requires
        is_split(runs, replies),
        0 <= i < runs.len(),
    ensures
        runs[0].same_task(runs[i]),
    decreases i,
{
    if i > 0 {
        lemma_same_task(runs, replies, i - 1);
        let reply = replies[i - 1];
    }
}

proof fn lemma_member_moved(
    runs: Seq<SplitRun>,
    replies: Seq<SplitReply>,
    child: u64,
    member: usize,
    p: int,
)
    requires
        is_split(runs, replies),
        0 <= p < runs.len(),
        runs[p].stage == (SplitStage::Moving { child, member, edge: EdgeMove::DropRecalls }),
    ensures
        moves(
            runs,
            runs[0].ids@[runs[0].clusters@[runs[p].rank as int].members@[member as int] as int],
            runs[0].concept_id,
            child,
            p,
        ),
        p + 4 < runs.len(),
        member + 1 < runs[0].clusters@[runs[p].rank as int].members@.len() ==> runs[p + 4].rank
            == runs[p].rank && runs[p + 4].stage == (SplitStage::Moving {
            child,
            member: (member + 1) as usize,
            edge: EdgeMove::DropRecalls,
        }),
        member + 1 == runs[0].clusters@[runs[p].rank as int].members@.len() ==> runs[p + 4].rank
            == runs[p].rank + 1 && runs[p + 4].stage == if runs[p].rank + 1
            < runs[0].clusters@.len() && runs[p].rank + 1 < runs[0].max_children {
            SplitStage::Naming
        } else {
            SplitStage::Settling
        },
{
    lemma_same_task(runs, replies, p);
    lemma_goes_on(runs, replies, p);
    lemma_goes_on(runs, replies, p + 1);
    lemma_goes_on(runs, replies, p + 2);
    lemma_goes_on(runs, replies, p + 3);
}

proof fn lemma_member_reached(
    runs: Seq<SplitRun>,
    replies: Seq<SplitReply>,
    child: u64,
    first: int,
    member: usize,
) -> (p: int)
    requires
        is_split(runs, replies),
        0 <= first < runs.len(),
        runs[first].stage == (SplitStage::Moving {
            child,
            member: 0,
            edge: EdgeMove::DropRecalls,
        }),
        member < runs[0].clusters@[runs[first].rank as int].members@.len(),
    ensures
        first <= p < runs.len(),
        runs[p].rank == runs[first].rank,
        runs[p].stage == (SplitStage::Moving { child, member, edge: EdgeMove::DropRecalls }),
    decreases member,
{
    if member == 0 {
        first
    } else {
        let before = lemma_member_reached(runs, replies, child, first, (member - 1) as usize);
        lemma_member_moved(runs, replies, child, (member - 1) as usize, before);
        before + 4
    }
}

proof fn lemma_cluster_reached(runs: Seq<SplitRun>, replies: Seq<SplitReply>, k: int) -> (p: int)
    requires
        is_split(runs, replies),
        0 <= k < runs[0].clusters@.len(),
        k < runs[0].max_children,
    ensures
        0 <= p < runs.len(),
        runs[p].rank == k,
        runs[p].stage is Naming,
    decreases k,
{
    if k == 0 {
        0
    } else {
        let before = lemma_cluster_reached(runs, replies, k - 1);
        lemma_child_made(runs, replies, before);
        let child = replies[before + 1]->child;
        lemma_same_task(runs, replies, before);
        assert(runs[0].valid());
        let size = runs[0].clusters@[k - 1].members@.len();
        assert(size > 0);
        assert(size == runs[0].clusters@[k - 1].members.len());
        let last = lemma_member_reached(
            runs,
            replies,
            child,
            before + 3,
            (size - 1) as usize,
        );
        lemma_member_moved(runs, replies, child, (size - 1) as usize, last);
        last + 4
    }
}

proof fn lemma_child_made(runs: Seq<SplitRun>, replies: Seq<SplitReply>, p: int)
    requires
        is_split(runs, replies),
        0 <= p < runs.len(),
        runs[p].stage is Naming,
    ensures
        p + 3 < runs.len(),
        replies[p] is Named,
        replies[p + 1] is Created,
        runs[p + 1].stage matches SplitStage::Creating { name } && name@ == replies[p]->name@,
        runs[p].asked() == Ok::<SplitRequest, u64>(
            SplitRequest::NameCluster { index: (runs[p].rank + 1) as usize },
        ),
        runs[p + 1].asked() == Ok::<SplitRequest, u64>(
            SplitRequest::CreateChild {
                source_count: runs[0].clusters@[runs[p].rank as int].members@.len() as i64,
            },
        ),
        replies[p + 1]->child <= i64::MAX,
        runs[p + 2].asked() == Ok::<SplitRequest, u64>(
            SplitRequest::LinkSpawned {
                parent: runs[0].concept_id as i64,
                child: replies[p + 1]->child as i64,
            },
        ),
        runs[p + 3].rank == runs[p].rank,
        runs[p + 3].stage == (SplitStage::Moving {
            child: replies[p + 1]->child,
            member: 0,
            edge: EdgeMove::DropRecalls,
        }),
{
    lemma_same_task(runs, replies, p);
    lemma_goes_on(runs, replies, p);
    lemma_goes_on(runs, replies, p + 1);
    lemma_goes_on(runs, replies, p + 2);
}

/// Each of the first clusters, as many as children are allowed, becomes a child of
/// its own: it is named, stored with its size, and linked to the parent, and each
/// of its engrams is moved to it from the parent by both edges.
pub proof fn every_cluster_becomes_a_child(
    runs: Seq<SplitRun>,
    replies: Seq<SplitReply>,
    k: int,
    member: usize,
) -> (p: int)
    requires
        is_split(runs, replies),
        0 <= k < runs[0].clusters@.len(),
        k < runs[0].max_children,
        member < runs[0].clusters@[k].members@.len(),
    ensures
        0 <= p,
        p + 3 < runs.len(),
        runs[p].asked() == Ok::<SplitRequest, u64>(
            SplitRequest::NameCluster { index: (k + 1) as usize },
        ),
        runs[p + 1].asked() == Ok::<SplitRequest, u64>(
            SplitRequest::CreateChild {
                source_count: runs[0].clusters@[k].members@.len() as i64,
            },
        ),
        runs[p + 2].asked() == Ok::<SplitRequest, u64>(
            SplitRequest::LinkSpawned {
                parent: runs[0].concept_id as i64,
                child: replies[p + 1]->child as i64,
            },
        ),
        exists|q: int|
            p < q && #[trigger] moves(
                runs,
                runs[0].ids@[runs[0].clusters@[k].members@[member as int] as int],
                runs[0].concept_id,
                replies[p + 1]->child,
                q,
            ),
{
    let p = lemma_cluster_reached(runs, replies, k);
    lemma_child_made(runs, replies, p);
    let child = replies[p + 1]->child;
    let q = lemma_member_reached(runs, replies, child, p + 3, member);
    lemma_member_moved(runs, replies, child, member, q);
    p
}

/// The engrams of the first `n` clusters together.
pub open spec fn in_first(clusters: Seq<Cluster>, n: nat) -> nat
    decreases n,
{
    if n == 0 {
        0
    } else {
        in_first(clusters, (n - 1) as nat) + clusters[n - 1].members@.len()
    }
}

proof fn lemma_in_first(clusters: Seq<Cluster>, n: nat)
    requires
        n <= clusters.len(),
    ensures
        in_first(clusters, n) == crate::mitosis::held_by(clusters, 0, n as int),
    decreases n,
{
    if n > 0 {
        lemma_in_first(clusters, (n - 1) as nat);
    }
}

/// A split ends by giving the parent the count that is left to it: all engrams
/// but those of the clusters that became children. It reports these numbers.
pub proof fn splits_settle_the_parent(runs: Seq<SplitRun>, replies: Seq<SplitReply>)
    requires
        is_split(runs, replies),
    ensures
        ({
            let made: nat = if runs[0].clusters@.len() <= runs[0].max_children {
                runs[0].clusters@.len()
            } else {
                runs[0].max_children as nat
            };
            let moved = in_first(runs[0].clusters@, made);
            &&& replies.len() > 0
            &&& moved <= runs[0].ids@.len()
            &&& runs[replies.len() - 1].asked() == Ok::<SplitRequest, u64>(
                SplitRequest::SetSourceCount {
                    concept: runs[0].concept_id as i64,
                    count: (runs[0].ids@.len() - moved) as i64,
                },
            )
            &&& runs.last().asked() matches Ok(SplitRequest::Finish { report })
                && report.concept_id == runs[0].concept_id && report.children_created == made
                && report.reassigned == moved && report.noise_kept == runs[0].ids@.len() - moved
        }),
{
    let n = runs.len() - 1;
    lemma_same_task(runs, replies, n);
    assert(runs.last() == runs[n]);
    assert(runs[n].valid());
    assert(runs[n].stage is Done);
    assert(n > 0);
    lemma_same_task(runs, replies, n - 1);
    let reply = replies[n - 1];
    assert(runs[n - 1].valid());
    let made = crate::mitosis::child_count(
        runs[0].clusters@.len(),
        runs[0].max_children as nat,
    );
    lemma_in_first(runs[0].clusters@, made);
    crate::mitosis::split_conserves_engrams(runs[n]);
}

} // verus!
