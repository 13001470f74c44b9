//! What a whole ingestion does.

use crate::double::Double;
use crate::ids::node_id;
use crate::ingestion::{
    found_concept, reply_count, ConceptEdge, IngestReply, IngestRequest, IngestRun, IngestStage,
};
use vstd::prelude::*;

verus! {

/// `runs` are the states of a whole ingestion, from its beginning to its end, and
/// `replies` what came of each request.
pub open spec fn is_ingestion(runs: Seq<IngestRun>, replies: Seq<IngestReply>) -> bool {
    &&& runs.len() == replies.len() + 1
    &&& runs[0].stage is Tagging
    &&& runs[0].concepts@.len() == 0
    &&& forall|i: int| 0 <= i < runs.len() ==> (#[trigger] runs[i]).valid()
    &&& forall|i: int|
        0 <= i < replies.len() ==> runs[i].expects(#[trigger] replies[i]) && runs[i].went_on(
            replies[i],
            runs[i + 1],
        )
    &&& runs.last().asked() matches Ok(IngestRequest::Finish { engram_id })
}

/// What the store is asked for the concept at place `k`, from request `p` on: a
/// look up, a creation where it found none, both edges, the count raised by one,
/// and a scan, all of the same concept.
pub open spec fn handles(
    runs: Seq<IngestRun>,
    replies: Seq<IngestReply>,
    engram: u64,
    k: usize,
    p: int,
) -> bool {
    &&& 0 <= p < replies.len()
    &&& runs[p].asked() == Ok::<IngestRequest, u64>(IngestRequest::LookUp { k })
    &&& match found_concept(replies[p]->row@) {
        Some((concept, known)) => links(runs, replies, engram, concept, known, p + 1),
        None => {
            &&& p + 1 < replies.len()
            &&& runs[p + 1].asked() == Ok::<IngestRequest, u64>(
                IngestRequest::CreateConcept { k },
            )
            &&& node_id(replies[p + 1]->row@, true) matches Some(concept) && links(
                runs,
                replies,
                engram,
                concept,
                reply_count(replies[p + 1]->row@),
                p + 2,
            )
        },
    }
}

/// From request `p` on the engram is linked to the concept by both edges, and the
/// concept's count, read first where it is not known, is raised by one.
pub open spec fn links(
    runs: Seq<IngestRun>,
    replies: Seq<IngestReply>,
    engram: u64,
    concept: u64,
    known: Option<i64>,
    p: int,
) -> bool {
    &&& p + 1 < replies.len()
    &&& engram <= i64::MAX
    &&& concept <= i64::MAX
    &&& runs[p].asked() == Ok::<IngestRequest, u64>(
        IngestRequest::Link {
            edge: ConceptEdge::Recalls,
            engram: engram as i64,
            concept: concept as i64,
        },
    )
    &&& runs[p + 1].asked() == Ok::<IngestRequest, u64>(
        IngestRequest::Link {
            edge: ConceptEdge::AbstractsTo,
            engram: engram as i64,
            concept: concept as i64,
        },
    )
    &&& match known {
        Some(n) => counts_up(runs, replies, concept, n, p + 2),
        None => {
            &&& p + 2 < replies.len()
            &&& runs[p + 2].asked() == Ok::<IngestRequest, u64>(
                IngestRequest::ReadCount { concept: concept as i64 },
            )
            &&& counts_up(
                runs,
                replies,
                concept,
                match reply_count(replies[p + 2]->row@) {
                    Some(n) => n,
                    None => 0,
                },
                p + 3,
            )
        },
    }
}

/// Request `p` stores one more than `n` as the concept's count, and the next one
/// scans the concept.
pub open spec fn counts_up(
    runs: Seq<IngestRun>,
    replies: Seq<IngestReply>,
    concept: u64,
    n: i64,
    p: int,
) -> bool {
    &&& p + 1 < replies.len()
    &&& runs[p].asked() matches Ok(IngestRequest::SetCount { concept: c, count }) && c == concept
        && count == if n < i64::MAX {
        n + 1
    } else {
        n as int
    }
    &&& runs[p + 1].asked() == Ok::<IngestRequest, u64>(IngestRequest::Scan { concept_id: concept })
}

proof fn lemma_goes_on(runs: Seq<IngestRun>, replies: Seq<IngestReply>, i: int)
    requires
        is_ingestion(runs, replies),
        0 <= i < runs.len(),
        !(runs[i].stage is Done),
    ensures
        i < replies.len(),
        runs[i].expects(replies[i]),
        runs[i].went_on(replies[i], runs[i + 1]),
{
    if i == runs.len() - 1 {
        assert(runs.last() == runs[i]);
    }
    let reply = replies[i];
}

proof fn lemma_counted(
    runs: Seq<IngestRun>,
    replies: Seq<IngestReply>,
    engram: u64,
    k: usize,
    concept: u64,
    current: i64,
    p: int,
)
    requires
        is_ingestion(runs, replies),
        0 <= p < runs.len(),
        runs[p].stage == (IngestStage::Raising { engram, k, concept, current }),
    ensures
        counts_up(runs, replies, concept, current, p),
        p + 2 < runs.len(),
        runs[p + 2].concepts@ == runs[p].concepts@,
        runs[p + 2].prev_id == runs[p].prev_id,
        k + 1 < runs[p].concepts@.len() ==> runs[p + 2].stage == (IngestStage::LookingUp {
            engram,
            k: (k + 1) as usize,
        }),
        k + 1 == runs[p].concepts@.len() ==> runs[p + 2].stage == match runs[p].prev_id {
            Some(prev) => IngestStage::Chaining { engram, prev },
            None => IngestStage::Done { engram },
        },
{
    lemma_goes_on(runs, replies, p);
    lemma_goes_on(runs, replies, p + 1);
    assert(runs[p].valid());
}

proof fn lemma_linked(
    runs: Seq<IngestRun>,
    replies: Seq<IngestReply>,
    engram: u64,
    k: usize,
    concept: u64,
    known: Option<i64>,
    p: int,
) -> (end: int)
    requires
        is_ingestion(runs, replies),
        0 <= p < runs.len(),
        runs[p].stage == (IngestStage::Recalling { engram, k, concept, known }),
    ensures
        links(runs, replies, engram, concept, known, p),
        p < end < runs.len(),
        runs[end].concepts@ == runs[p].concepts@,
        runs[end].prev_id == runs[p].prev_id,
        k + 1 < runs[p].concepts@.len() ==> runs[end].stage == (IngestStage::LookingUp {
            engram,
            k: (k + 1) as usize,
        }),
        k + 1 == runs[p].concepts@.len() ==> runs[end].stage == match runs[p].prev_id {
            Some(prev) => IngestStage::Chaining { engram, prev },
            None => IngestStage::Done { engram },
        },
{
    lemma_goes_on(runs, replies, p);
    lemma_goes_on(runs, replies, p + 1);
    match known {
        Some(n) => {
            lemma_counted(runs, replies, engram, k, concept, n, p + 2);
            p + 4
        },
        None => {
            lemma_goes_on(runs, replies, p + 2);
            let n = match reply_count(replies[p + 2]->row@) {
                Some(n) => n,
                None => 0i64,
            };
            lemma_counted(runs, replies, engram, k, concept, n, p + 3);
            p + 5
        },
    }
}

proof fn lemma_handled(
    runs: Seq<IngestRun>,
    replies: Seq<IngestReply>,
    engram: u64,
    k: usize,
    p: int,
) -> (end: int)
    requires
        is_ingestion(runs, replies),
        0 <= p < runs.len(),
        runs[p].stage == (IngestStage::LookingUp { engram, k }),
    ensures
        handles(runs, replies, engram, k, p),
        p < end < runs.len(),
        runs[end].concepts@ == runs[p].concepts@,
        runs[end].prev_id == runs[p].prev_id,
        k + 1 < runs[p].concepts@.len() ==> runs[end].stage == (IngestStage::LookingUp {
            engram,
            k: (k + 1) as usize,
        }),
        k + 1 == runs[p].concepts@.len() ==> runs[end].stage == match runs[p].prev_id {
            Some(prev) => IngestStage::Chaining { engram, prev },
            None => IngestStage::Done { engram },
        },
{
    lemma_goes_on(runs, replies, p);
    match found_concept(replies[p]->row@) {
        Some((concept, known)) => lemma_linked(
            runs,
            replies,
            engram,
            k,
            concept,
            known,
            p + 1,
        ),
        None => {
            lemma_goes_on(runs, replies, p + 1);
            let concept = node_id(replies[p + 1]->row@, true)->0;
            lemma_linked(
                runs,
                replies,
                engram,
                k,
                concept,
                reply_count(replies[p + 1]->row@),
                p + 2,
            )
        },
    }
}

proof fn lemma_reached(
    runs: Seq<IngestRun>,
    replies: Seq<IngestReply>,
    engram: u64,
    first: int,
    k: usize,
) -> (p: int)
    requires
        is_ingestion(runs, replies),
        0 <= first < runs.len(),
        runs[first].stage == (IngestStage::LookingUp { engram, k: 0 }),
        k < runs[first].concepts@.len(),
    ensures
        first <= p < runs.len(),
        runs[p].stage == (IngestStage::LookingUp { engram, k }),
        runs[p].concepts@ == runs[first].concepts@,
        runs[p].prev_id == runs[first].prev_id,
    decreases k,
{
    if k == 0 {
        first
    } else {
        let before = lemma_reached(runs, replies, engram, first, (k - 1) as usize);
        lemma_handled(runs, replies, engram, (k - 1) as usize, before)
    }
}

/// Where an ingestion stands once its engram is stored.
proof fn lemma_stored(runs: Seq<IngestRun>, replies: Seq<IngestReply>) -> (p: int)
    requires
        is_ingestion(runs, replies),
    ensures
        3 <= p <= 4,
        p < replies.len(),
        p == 3 <==> runs[0].importance is Some,
        runs[p].asked() == Ok::<IngestRequest, u64>(IngestRequest::Extract),
        replies[p] is Extracted,
        node_id(replies[p - 1]->row@, true) == Some(runs[p].stage->Extracting_engram),
        runs[p].prev_id == runs[0].prev_id,
        runs[p].seq_pos == runs[0].seq_pos,
        runs[p + 1].concepts@ == replies[p]->concepts@,
        runs[p + 1].prev_id == runs[0].prev_id,
        runs[p + 1].seq_pos == runs[0].seq_pos,
{
    lemma_goes_on(runs, replies, 0);
    lemma_goes_on(runs, replies, 1);
    lemma_goes_on(runs, replies, 2);
    lemma_goes_on(runs, replies, 3);
    if runs[0].importance is Some {
        3
    } else {
        lemma_goes_on(runs, replies, 4);
        4
    }
}

/// A finished ingestion has handled every concept that the extraction gave: it
/// looked the concept up, created it where it was not known, linked the engram to
/// it by both edges, raised its count by one and scanned it.
pub proof fn every_concept_is_handled(
    runs: Seq<IngestRun>,
    replies: Seq<IngestReply>,
    k: usize,
) -> (p: int)
    requires
        is_ingestion(runs, replies),
        k < runs.last().concepts@.len(),
    ensures
        ({
            let x: int = if runs[0].importance is Some {
                3
            } else {
                4
            };
            &&& x < p
            &&& runs[x].asked() == Ok::<IngestRequest, u64>(IngestRequest::Extract)
            &&& replies[x]->concepts@ == runs.last().concepts@
            &&& node_id(replies[x - 1]->row@, true) is Some
            &&& handles(runs, replies, node_id(replies[x - 1]->row@, true)->0, k, p)
        }),
{
    let x = lemma_stored(runs, replies);
    let engram = runs[x].stage->Extracting_engram;
    lemma_goes_on(runs, replies, x);
    lemma_concepts_stay(runs, replies, x + 1, runs.len() - 1);
    let p = lemma_reached(runs, replies, engram, x + 1, k);
    let end = lemma_handled(runs, replies, engram, k, p);
    assert(runs[x].asked() == Ok::<IngestRequest, u64>(IngestRequest::Extract));
    p
}

proof fn lemma_concepts_stay(runs: Seq<IngestRun>, replies: Seq<IngestReply>, i: int, j: int)
    requires
        is_ingestion(runs, replies),
        0 <= i <= j < runs.len(),
        runs[i].past_extraction(),
    ensures
        runs[j].past_extraction(),
        runs[j].concepts@ == runs[i].concepts@,
        runs[j].seq_pos == runs[i].seq_pos,
        runs[j].prev_id == runs[i].prev_id,
    decreases j - i,
{
    if i < j {
        lemma_concepts_stay(runs, replies, i, j - 1);
        let reply = replies[j - 1];
    }
}

/// An ingestion stores the charge that the tagging gave, with an importance given
/// by hand, held between 0 and 1, or else the one that the scoring gave.
pub proof fn engrams_are_stored_with_their_scores(
    runs: Seq<IngestRun>,
    replies: Seq<IngestReply>,
)
    requires
        is_ingestion(runs, replies),
    ensures
        replies.len() >= 4,
        runs[0].asked() == Ok::<IngestRequest, u64>(IngestRequest::Tag),
        replies[0] is Scored,
        match runs[0].importance {
            Some(given) => {
                &&& runs[1].asked() == Ok::<IngestRequest, u64>(IngestRequest::Embed)
                &&& runs[2].asked() matches Ok(IngestRequest::StoreEngram { charge, importance })
                    && charge == replies[0]->value && (Double { bits: 0 }).le(importance)
                    && importance.le(Double { bits: 0x3FF0_0000_0000_0000 }) && ((Double {
                    bits: 0,
                }).le(given) && given.le(Double { bits: 0x3FF0_0000_0000_0000 }) ==> importance
                    == given)
            },
            None => {
                &&& runs[1].asked() == Ok::<IngestRequest, u64>(IngestRequest::Score)
                &&& replies[1] is Scored
                &&& runs[2].asked() == Ok::<IngestRequest, u64>(IngestRequest::Embed)
                &&& runs[3].asked() == Ok::<IngestRequest, u64>(
                    IngestRequest::StoreEngram {
                        charge: replies[0]->value,
                        importance: replies[1]->value,
                    },
                )
            },
        },
{
    lemma_goes_on(runs, replies, 0);
    lemma_goes_on(runs, replies, 1);
    lemma_goes_on(runs, replies, 2);
    lemma_goes_on(runs, replies, 3);
}

/// An ingestion ends with the engram that the store gave it. Where it follows
/// another memory, that one is linked to it right before the end, at the given
/// place; else no memory is.
pub proof fn sequences_are_chained(runs: Seq<IngestRun>, replies: Seq<IngestReply>)
    requires
        is_ingestion(runs, replies),
    ensures
        replies.len() >= 4,
        match runs.last().asked() {
            Ok(IngestRequest::Finish { engram_id }) => {
                &&& node_id(
                    replies[if runs[0].importance is Some {
                        2
                    } else {
                        3
                    }]->row@,
                    true,
                ) == Some(engram_id)
                &&& runs[0].prev_id matches Some(prev) ==> prev <= i64::MAX && engram_id <= i64::MAX
                    && runs[replies.len() - 1].asked() == Ok::<IngestRequest, u64>(
                    IngestRequest::Chain {
                        from: prev as i64,
                        to: engram_id as i64,
                        pos: runs[0].seq_pos,
                    },
                )
            },
            _ => false,
        },
        runs[0].prev_id is None ==> forall|i: int|
            0 <= i < runs.len() ==> !((#[trigger] runs[i]).asked() matches Ok(
                IngestRequest::Chain { from, to, pos },
            )),
{
    let x = lemma_stored(runs, replies);
    let engram = runs[x].stage->Extracting_engram;
    assert(runs[x].asked() == Ok::<IngestRequest, u64>(IngestRequest::Extract));
    lemma_goes_on(runs, replies, x);
    lemma_concepts_stay(runs, replies, x + 1, runs.len() - 1);
    lemma_one_engram(runs, replies, engram, x + 1, runs.len() - 1);
    let n = runs.len() - 1;
    assert(runs.last() == runs[n]);
    if runs[0].prev_id is Some {
        lemma_end_is_chained(runs, replies, engram, x + 1, n);
    } else {
        assert forall|i: int| 0 <= i < runs.len() implies !((#[trigger] runs[i]).asked() matches Ok(
            IngestRequest::Chain { from, to, pos },
        )) by {
            lemma_never_chained(runs, replies, i);
        }
    }
}

/// The engram of a stage after the extraction.
spec fn engram_of(stage: IngestStage) -> u64 {
    match stage {
        IngestStage::LookingUp { engram, k } => engram,
        IngestStage::Creating { engram, k } => engram,
        IngestStage::Recalling { engram, k, concept, known } => engram,
        IngestStage::Abstracting { engram, k, concept, known } => engram,
        IngestStage::Counting { engram, k, concept } => engram,
        IngestStage::Raising { engram, k, concept, current } => engram,
        IngestStage::Scanning { engram, k, concept } => engram,
        IngestStage::Chaining { engram, prev } => engram,
        IngestStage::Done { engram } => engram,
        _ => 0,
    }
}

proof fn lemma_one_engram(
    runs: Seq<IngestRun>,
    replies: Seq<IngestReply>,
    engram: u64,
    i: int,
    j: int,
)
    requires
        is_ingestion(runs, replies),
        0 <= i <= j < runs.len(),
        runs[i].past_extraction(),
        engram_of(runs[i].stage) == engram,
    ensures
        runs[j].past_extraction(),
        engram_of(runs[j].stage) == engram,
    decreases j - i,
{
    if i < j {
        lemma_one_engram(runs, replies, engram, i, j - 1);
        let reply = replies[j - 1];
    }
}

proof fn lemma_end_is_chained(
    runs: Seq<IngestRun>,
    replies: Seq<IngestReply>,
    engram: u64,
    i: int,
    n: int,
)
    requires
        is_ingestion(runs, replies),
        0 < i <= n,
        n == runs.len() - 1,
        runs[i].past_extraction(),
        engram_of(runs[i].stage) == engram,
        !(runs[i].stage is Done),
        runs[i].prev_id is Some,
        runs[i].stage matches IngestStage::Chaining { engram: e, prev } ==> Some(prev)
            == runs[i].prev_id,
    ensures
        n > i,
        runs[n - 1].stage == (IngestStage::Chaining { engram, prev: runs[i].prev_id->0 }),
        runs[n - 1].seq_pos == runs[i].seq_pos,
        runs[n - 1].asked() is Ok,
    decreases n - i,
{
    lemma_goes_on(runs, replies, i);
    if runs[i].stage is Chaining {
        if i + 1 < n {
            let reply = replies[i + 1];
        }
    } else {
        lemma_end_is_chained(runs, replies, engram, i + 1, n);
    }
}

proof fn lemma_never_chained(runs: Seq<IngestRun>, replies: Seq<IngestReply>, i: int)
    requires
        is_ingestion(runs, replies),
        runs[0].prev_id is None,
        0 <= i < runs.len(),
    ensures
        !(runs[i].stage is Chaining),
        runs[i].prev_id is None,
    decreases i,
{
    if i > 0 {
        lemma_never_chained(runs, replies, i - 1);
        let reply = replies[i - 1];
    }
}

/// An ingestion keeps to the end what it was given: the kind of the memory, its
/// importance, and its place behind another.
pub proof fn ingestions_keep_what_they_were_given(
    runs: Seq<IngestRun>,
    replies: Seq<IngestReply>,
    i: int,
)
    requires
        is_ingestion(runs, replies),
        0 <= i < runs.len(),
    ensures
        runs[i].engram_type == runs[0].engram_type,
        runs[i].importance == runs[0].importance,
        runs[i].prev_id == runs[0].prev_id,
        runs[i].seq_pos == runs[0].seq_pos,
    decreases i,
{
    if i > 0 {
        ingestions_keep_what_they_were_given(runs, replies, i - 1);
        assert(runs[i - 1].went_on(replies[i - 1], runs[i]));
    }
}

} // verus!
