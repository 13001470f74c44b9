//! The aggressive consolidation cycle: overloaded concepts are split, crystallized
//! into identities and scanned for contradictions, each only as far as it grew.

use crate::double::Double;
use crate::telemetry::sum_held;
use crate::text::{decimal, show_u64};
use crate::types::ConsolidationReport;
use vstd::prelude::*;

verus! {

/// How many engrams make a concept a candidate.
pub const MIN_SOURCE_COUNT: i64 = 10;

/// The smallest cluster and the most children of a split in a cycle.
pub const CYCLE_MIN_CLUSTER: usize = 3;

/// The most children of a split in a cycle.
pub const CYCLE_MAX_CHILDREN: usize = 5;

/// A concept that may be overloaded.
#[derive(Debug)]
pub struct ConceptCandidate {
    pub id: u64,
    pub name: String,
    pub confidence: Double,
    pub source_count: i64,
}

/// What the daemon remembers from cycle to cycle.
#[derive(Debug)]
pub struct CycleMemory {
    /// The count at which each concept was last handled.
    pub seen: Vec<(u64, i64)>,
    /// The concepts that have an identity.
    pub crystallized: Vec<u64>,
}

/// The count at which a concept was last handled.
pub open spec fn remembered(seen: Seq<(u64, i64)>, id: u64) -> Option<i64>
    decreases seen.len(),
{
    if seen.len() == 0 {
        None
    } else if seen.last().0 == id {
        Some(seen.last().1)
    } else {
        remembered(seen.drop_last(), id)
    }
}

/// The place at which a concept stands.
pub open spec fn place_in(seen: Seq<(u64, i64)>, id: u64) -> Option<int>
    decreases seen.len(),
{
    if seen.len() == 0 {
        None
    } else if seen.last().0 == id {
        Some(seen.len() - 1)
    } else {
        place_in(seen.drop_last(), id)
    }
}

/// The counts after a concept was handled at `count`.
pub open spec fn with_count(seen: Seq<(u64, i64)>, id: u64, count: i64) -> Seq<(u64, i64)> {
    match place_in(seen, id) {
        Some(k) => seen.update(k, (id, count)),
        None => seen.push((id, count)),
    }
}

proof fn lemma_with_count(seen: Seq<(u64, i64)>, id: u64, count: i64, other: u64)
    ensures
        remembered(with_count(seen, id, count), other) == if other == id {
            Some(count)
        } else {
            remembered(seen, other)
        },
        place_in(seen, id) matches Some(k) ==> 0 <= k < seen.len(),
    decreases seen.len(),
{
    let after = with_count(seen, id, count);
    if seen.len() == 0 {
        assert(after.drop_last() =~= seen);
    } else if seen.last().0 == id {
        assert(after.drop_last() =~= seen.drop_last());
    } else {
        lemma_with_count(seen.drop_last(), id, count, other);
        match place_in(seen, id) {
            Some(k) => {
                assert(after.drop_last() =~= with_count(seen.drop_last(), id, count));
            },
            None => {
                assert(after.drop_last() =~= seen);
            },
        }
    }
}

/// The concept has not grown since it was last handled.
pub open spec fn unchanged(seen: Seq<(u64, i64)>, c: ConceptCandidate) -> bool {
    match remembered(seen, c.id) {
        Some(count) => count >= c.source_count,
        None => c.source_count <= -1,
    }
}

/// Where the handling of the concept at hand stands.
#[derive(Clone, Copy, Debug, PartialEq, Eq, Structural)]
pub enum CycleStage {
    Fetching,
    Arriving,
    Splitting,
    Crystallizing,
    Defining { identity: u64 },
    Scanning,
    Counting,
    Leaving,
}

/// What a cycle asks for next. All of it may fail without failing the cycle.
#[derive(Clone, Copy, Debug, PartialEq, Eq, Structural)]
pub enum CycleRequest {
    /// Nothing is to be done outside at this place.
    MoveOn,
    /// Fetch the concepts with at least `min` engrams.
    FetchCandidates { min: i64 },
    /// Split the concept.
    Split { concept: u64 },
    /// Store an identity for the concept.
    Crystallize { concept: u64 },
    /// Link the concept to its identity.
    Define { concept: u64, identity: u64 },
    /// Scan the concept for contradictions.
    Scan { concept: u64 },
    /// Count the contradictions.
    CountContradictions,
    Finish { report: ConsolidationReport },
}

/// What came of a request; `None` and `false` for a failure.
#[derive(Clone, Copy, Debug, PartialEq, Eq, Structural)]
pub enum CycleReply {
    Split { children: Option<u64> },
    Crystallized { identity: Option<u64> },
    Defined,
    Scanned { ok: bool },
    Counted { contradictions: Option<u64> },
}

/// A cycle under way.
#[derive(Debug)]
pub struct CycleRun {
    pub memory: CycleMemory,
    pub candidates: Vec<ConceptCandidate>,
    pub has_splitter: bool,
    pub has_detector: bool,
    pub at: usize,
    pub stage: CycleStage,
    pub report: ConsolidationReport,
    pub mitosis_children: u64,
    pub identities_created: u64,
    pub skipped_unchanged: u64,
}

impl CycleMemory {
    /// Nothing was handled yet.
    pub fn new() -> (r: CycleMemory)
        ensures
            r.seen@.len() == 0,
            r.crystallized@.len() == 0,
    {
        CycleMemory { seen: Vec::new(), crystallized: Vec::new() }
    }

    fn find(&self, id: u64) -> (r: Option<usize>)
        ensures
            match r {
                Some(k) => k < self.seen@.len() && place_in(self.seen@, id) == Some(k as int)
                    && remembered(self.seen@, id) == Some(self.seen@[k as int].1),
                None => place_in(self.seen@, id) is None && remembered(self.seen@, id) is None,
            },
    {
        let mut i: usize = self.seen.len();
        assert(self.seen@.take(i as int) =~= self.seen@);
        while i > 0
            invariant
                i <= self.seen@.len(),
                remembered(self.seen@, id) == remembered(self.seen@.take(i as int), id),
                place_in(self.seen@, id) == place_in(self.seen@.take(i as int), id),
            decreases i,
        {
            assert(self.seen@.take(i as int).drop_last() =~= self.seen@.take(i - 1));
            if self.seen[i - 1].0 == id {
                return Some(i - 1);
            }
            i -= 1;
        }
        None
    }

    fn recall_count(&self, id: u64) -> (r: Option<i64>)
        ensures
            r == remembered(self.seen@, id),
    {
        match self.find(id) {
            Some(k) => Some(self.seen[k].1),
            None => None,
        }
    }

    fn remember(&mut self, id: u64, count: i64)
        ensures
            final(self).seen@ == with_count(old(self).seen@, id, count),
            final(self).crystallized == old(self).crystallized,
    {
        match self.find(id) {
            Some(k) => {
                self.seen.set(k, (id, count));
            },
            None => {
                self.seen.push((id, count));
            },
        }
    }

    fn has_identity(&self, id: u64) -> (r: bool)
        ensures
            r == self.crystallized@.contains(id),
    {
        let mut i: usize = 0;
        while i < self.crystallized.len()
            invariant
                i <= self.crystallized@.len(),
                forall|j: int| 0 <= j < i ==> self.crystallized@[j] != id,
            decreases self.crystallized@.len() - i,
        {
            if self.crystallized[i] == id {
                return true;
            }
            i += 1;
        }
        false
    }
}

impl CycleRun {
    /// The concepts passed so far need nothing more, the one at hand has grown,
    /// and no concept has two identities.
    pub open spec fn valid(&self) -> bool {
        &&& self.at <= self.candidates@.len()
        &&& self.handling() ==> self.at < self.candidates@.len() && !unchanged(
            self.memory.seen@,
            self.candidates@[self.at as int],
        )
        &&& self.stage == CycleStage::Fetching ==> self.candidates@.len() == 0
        &&& forall|k: int|
            0 <= k < self.at ==> unchanged(self.memory.seen@, #[trigger] self.candidates@[k])
        &&& self.skipped_unchanged <= self.at
        &&& self.identities_created <= self.at + self.defined_here()
        &&& self.memory.crystallized@.no_duplicates()
    }

    /// A concept is being handled.
    pub open spec fn handling(&self) -> bool {
        self.stage != CycleStage::Fetching && self.stage != CycleStage::Arriving
    }

    /// How many identities the concept at hand may have got already.
    pub open spec fn defined_here(&self) -> nat {
        match self.stage {
            CycleStage::Scanning | CycleStage::Counting | CycleStage::Leaving => 1,
            _ => 0,
        }
    }

    /// The id of the concept at hand.
    pub open spec fn here(&self) -> u64 {
        self.candidates@[self.at as int].id
    }

    /// The request at hand.
    pub open spec fn asked(&self) -> CycleRequest {
        match self.stage {
            CycleStage::Fetching => CycleRequest::FetchCandidates { min: MIN_SOURCE_COUNT },
            CycleStage::Arriving => if self.at >= self.candidates@.len() {
                CycleRequest::Finish { report: self.report }
            } else {
                CycleRequest::MoveOn
            },
            CycleStage::Splitting => if self.has_splitter {
                CycleRequest::Split { concept: self.here() }
            } else {
                CycleRequest::MoveOn
            },
            CycleStage::Crystallizing => if self.memory.crystallized@.contains(self.here()) {
                CycleRequest::MoveOn
            } else {
                CycleRequest::Crystallize { concept: self.here() }
            },
            CycleStage::Defining { identity } => CycleRequest::Define {
                concept: self.here(),
                identity,
            },
            CycleStage::Scanning => if self.has_detector {
                CycleRequest::Scan { concept: self.here() }
            } else {
                CycleRequest::MoveOn
            },
            CycleStage::Counting => CycleRequest::CountContradictions,
            CycleStage::Leaving => CycleRequest::MoveOn,
        }
    }

    /// The reply fits the request at hand.
    pub open spec fn expects(&self, reply: CycleReply) -> bool {
        match self.asked() {
            CycleRequest::Split { concept } => reply is Split,
            CycleRequest::Crystallize { concept } => reply is Crystallized,
            CycleRequest::Define { concept, identity } => reply is Defined,
            CycleRequest::Scan { concept } => reply is Scanned,
            CycleRequest::CountContradictions => reply is Counted,
            _ => false,
        }
    }

    /// What neither a reply nor moving on changes.
    pub open spec fn same_task(&self, next: CycleRun) -> bool {
        &&& next.candidates == self.candidates
        &&& next.has_splitter == self.has_splitter
        &&& next.has_detector == self.has_detector
        &&& next.report.pruned == self.report.pruned
        &&& next.report.compressed == self.report.compressed
        &&& next.report.promoted == self.report.promoted
    }

    /// The cycle is at its beginning.
    pub open spec fn begun(&self) -> bool {
        &&& self.candidates@.len() == 0
        &&& self.at == 0
        &&& self.stage == CycleStage::Fetching || self.stage == CycleStage::Arriving
        &&& self.mitosis_children == 0
        &&& self.identities_created == 0
        &&& self.skipped_unchanged == 0
    }

    /// Begins a cycle after a decay pass. Only an aggressive one has anything more
    /// to do; another ends with the report of the pass.
    pub fn begin(
        memory: CycleMemory,
        aggressive: bool,
        has_splitter: bool,
        has_detector: bool,
        report: ConsolidationReport,
    ) -> (r: CycleRun)
        requires
            memory.crystallized@.no_duplicates(),
        ensures
            r.valid(),
            r.begun(),
            r.memory == memory,
            r.has_splitter == has_splitter,
            r.has_detector == has_detector,
            r.report == report,
            r.asked() == if aggressive {
                CycleRequest::FetchCandidates { min: MIN_SOURCE_COUNT }
            } else {
                CycleRequest::Finish { report }
            },
    {
        CycleRun {
            memory,
            candidates: Vec::new(),
            has_splitter,
            has_detector,
            at: 0,
            stage: if aggressive {
                CycleStage::Fetching
            } else {
                CycleStage::Arriving
            },
            report,
            mitosis_children: 0,
            identities_created: 0,
            skipped_unchanged: 0,
        }
    }

    /// `next` is this cycle with its candidates at hand.
    pub open spec fn supplied(&self, candidates: Seq<ConceptCandidate>, next: CycleRun) -> bool {
        &&& next.candidates@ == candidates
        &&& next.memory == self.memory
        &&& next.has_splitter == self.has_splitter
        &&& next.has_detector == self.has_detector
        &&& next.report == self.report
        &&& next.at == self.at
        &&& next.stage == CycleStage::Arriving
        &&& next.mitosis_children == self.mitosis_children
        &&& next.identities_created == self.identities_created
        &&& next.skipped_unchanged == self.skipped_unchanged
    }

    /// Takes the candidates; where they could not be fetched, there are none.
    pub fn supply(self, candidates: Option<Vec<ConceptCandidate>>) -> (r: CycleRun)
        requires
            self.valid(),
            self.asked() is FetchCandidates,
        ensures
            r.valid(),
            self.supplied(
                match candidates {
                    Some(list) => list@,
                    None => Seq::empty(),
                },
                r,
            ),
    {
        let mut next = self;
        next.candidates = match candidates {
            Some(list) => list,
            None => Vec::new(),
        };
        next.stage = CycleStage::Arriving;
        next
    }

    /// What to do next.
    pub fn request(&self) -> (r: CycleRequest)
        requires
            self.valid(),
        ensures
            r == self.asked(),
    {
        match self.stage {
            CycleStage::Fetching => CycleRequest::FetchCandidates { min: MIN_SOURCE_COUNT },
            CycleStage::Arriving => if self.at >= self.candidates.len() {
                CycleRequest::Finish { report: self.report }
            } else {
                CycleRequest::MoveOn
            },
            CycleStage::Splitting => if self.has_splitter {
                CycleRequest::Split { concept: self.candidates[self.at].id }
            } else {
                CycleRequest::MoveOn
            },
            CycleStage::Crystallizing => {
                let concept: u64 = self.candidates[self.at].id;
                if self.memory.has_identity(concept) {
                    CycleRequest::MoveOn
                } else {
                    CycleRequest::Crystallize { concept }
                }
            },
            CycleStage::Defining { identity } => CycleRequest::Define {
                concept: self.candidates[self.at].id,
                identity,
            },
            CycleStage::Scanning => if self.has_detector {
                CycleRequest::Scan { concept: self.candidates[self.at].id }
            } else {
                CycleRequest::MoveOn
            },
            CycleStage::Counting => CycleRequest::CountContradictions,
            CycleStage::Leaving => CycleRequest::MoveOn,
        }
    }

    /// `next` is this cycle after it moved on.
    pub open spec fn moved(&self, next: CycleRun) -> bool {
        &&& self.same_task(next)
        &&& next.report == self.report
        &&& next.mitosis_children == self.mitosis_children
        &&& next.identities_created == self.identities_created
        &&& next.memory.crystallized == self.memory.crystallized
        &&& match self.stage {
            CycleStage::Arriving => next.memory == self.memory && (if unchanged(
                self.memory.seen@,
                self.candidates@[self.at as int],
            ) {
                next.at == self.at + 1 && next.stage == CycleStage::Arriving && next.skipped_unchanged
                    == self.skipped_unchanged + 1
            } else {
                next.at == self.at && next.stage == CycleStage::Splitting && next.skipped_unchanged
                    == self.skipped_unchanged
            }),
            CycleStage::Splitting => next.memory == self.memory && next.at == self.at && next.stage
                == CycleStage::Crystallizing && next.skipped_unchanged == self.skipped_unchanged,
            CycleStage::Crystallizing => next.memory == self.memory && next.at == self.at && next.stage
                == CycleStage::Scanning && next.skipped_unchanged == self.skipped_unchanged,
            CycleStage::Scanning => next.memory == self.memory && next.at == self.at && next.stage
                == CycleStage::Leaving && next.skipped_unchanged == self.skipped_unchanged,
            _ => next.memory.seen@ == with_count(
                self.memory.seen@,
                self.here(),
                self.candidates@[self.at as int].source_count,
            ) && next.at == self.at + 1 && next.stage == CycleStage::Arriving
                && next.skipped_unchanged == self.skipped_unchanged,
        }
    }

    /// Moves on where nothing is to be done outside: past a concept that has not
    /// grown, past a part that is switched off, or to the next concept.
    pub fn move_on(self) -> (r: CycleRun)
        requires
            self.valid(),
            self.asked() == CycleRequest::MoveOn,
        ensures
            r.valid(),
            self.moved(r),
    {
        assert(self.candidates@.len() == self.candidates.len());
        let mut next = self;
        match next.stage {
            CycleStage::Arriving => {
                let id: u64 = next.candidates[next.at].id;
                let count: i64 = match next.memory.recall_count(id) {
                    Some(n) => n,
                    None => -1,
                };
                if count >= next.candidates[next.at].source_count {
                    next.skipped_unchanged = next.skipped_unchanged + 1;
                    next.at = next.at + 1;
                } else {
                    next.stage = CycleStage::Splitting;
                }
            },
            CycleStage::Splitting => {
                next.stage = CycleStage::Crystallizing;
            },
            CycleStage::Crystallizing => {
                next.stage = CycleStage::Scanning;
            },
            CycleStage::Scanning => {
                next.stage = CycleStage::Leaving;
            },
            _ => {
                let id: u64 = next.candidates[next.at].id;
                let count: i64 = next.candidates[next.at].source_count;
                next.memory.remember(id, count);
                proof {
                    let seen = self.memory.seen@;
                    assert forall|k: int| 0 <= k <= self.at implies unchanged(
                        with_count(seen, id, count),
                        #[trigger] self.candidates@[k],
                    ) by {
                        lemma_with_count(seen, id, count, self.candidates@[k].id);
                    }
                }
                next.at = next.at + 1;
                next.stage = CycleStage::Arriving;
            },
        }
        next
    }

    /// `next` is this cycle after `reply`.
    pub open spec fn answered(&self, reply: CycleReply, next: CycleRun) -> bool {
        &&& self.same_task(next)
        &&& next.at == self.at
        &&& next.skipped_unchanged == self.skipped_unchanged
        &&& next.memory.seen == self.memory.seen
        &&& match self.stage {
            CycleStage::Splitting => next.memory == self.memory && next.report == self.report
                && next.identities_created == self.identities_created && next.stage
                == CycleStage::Crystallizing && next.mitosis_children == match reply->children {
                Some(n) => sum_held(self.mitosis_children, n),
                None => self.mitosis_children,
            },
            CycleStage::Crystallizing => next.memory.crystallized@
                == self.memory.crystallized@.push(self.here()) && next.report == self.report
                && next.mitosis_children == self.mitosis_children && next.identities_created
                == self.identities_created && next.stage == match reply->identity {
                Some(identity) => CycleStage::Defining { identity },
                None => CycleStage::Scanning,
            },
            CycleStage::Defining { identity } => next.memory == self.memory && next.report
                == self.report && next.mitosis_children == self.mitosis_children
                && next.identities_created == self.identities_created + 1 && next.stage
                == CycleStage::Scanning,
            CycleStage::Scanning => next.memory == self.memory && next.report == self.report
                && next.mitosis_children == self.mitosis_children && next.identities_created
                == self.identities_created && next.stage == if reply->ok {
                CycleStage::Counting
            } else {
                CycleStage::Leaving
            },
            _ => next.memory == self.memory && next.mitosis_children == self.mitosis_children
                && next.identities_created == self.identities_created && next.stage
                == CycleStage::Leaving && next.report.contradictions_linked
                == match reply->contradictions {
                Some(n) => n,
                None => self.report.contradictions_linked,
            },
        }
    }

    /// Takes the reply to the request at hand.
    pub fn advance(self, reply: CycleReply) -> (r: CycleRun)
        requires
            self.valid(),
            self.expects(reply),
        ensures
            r.valid(),
            self.answered(reply, r),
    {
        assert(self.candidates@.len() == self.candidates.len());
        let mut next = self;
        match reply {
            CycleReply::Split { children } => {
                if let Some(n) = children {
                    next.mitosis_children = next.mitosis_children.saturating_add(n);
                }
                next.stage = CycleStage::Crystallizing;
            },
            CycleReply::Crystallized { identity } => {
                let id: u64 = next.candidates[next.at].id;
                let ghost before = next.memory.crystallized@;
                next.memory.crystallized.push(id);
                assert(next.memory.crystallized@.no_duplicates()) by {
                    assert(!before.contains(id));
                    assert forall|a: int, b: int|
                        0 <= a < before.len() + 1 && 0 <= b < before.len() + 1 && a
                            != b implies next.memory.crystallized@[a]
                        != next.memory.crystallized@[b] by {
                        if a < before.len() {
                            assert(before.contains(before[a]));
                        }
                        if b < before.len() {
                            assert(before.contains(before[b]));
                        }
                    }
                }
                next.stage = match identity {
                    Some(identity) => CycleStage::Defining { identity },
                    None => CycleStage::Scanning,
                };
            },
            CycleReply::Defined => {
                next.identities_created = next.identities_created + 1;
                next.stage = CycleStage::Scanning;
            },
            CycleReply::Scanned { ok } => {
                next.stage = if ok {
                    CycleStage::Counting
                } else {
                    CycleStage::Leaving
                };
            },
            CycleReply::Counted { contradictions } => {
                if let Some(n) = contradictions {
                    next.report.contradictions_linked = n;
                }
                next.stage = CycleStage::Leaving;
            },
        }
        next
    }

    /// The line that telemetry keeps of a finished cycle.
    pub fn summary(&self) -> (r: String)
        ensures
            r@ == "candidates="@ + decimal(self.candidates@.len()) + " mitosis_children="@
                + decimal(self.mitosis_children as nat) + " identities="@ + decimal(
                self.identities_created as nat,
            ) + " skipped_unchanged="@ + decimal(self.skipped_unchanged as nat),
    {
        let candidates = show_u64(self.candidates.len() as u64);
        let children = show_u64(self.mitosis_children);
        let identities = show_u64(self.identities_created);
        let skipped = show_u64(self.skipped_unchanged);
        "candidates=".to_owned().concat(candidates.as_str()).concat(" mitosis_children=").concat(
            children.as_str(),
        ).concat(" identities=").concat(identities.as_str()).concat(" skipped_unchanged=").concat(
            skipped.as_str(),
        )
    }
}

/// A concept that was handled is passed over until it grows.
pub proof fn handled_concepts_are_skipped(seen: Seq<(u64, i64)>, c: ConceptCandidate)
    ensures
        unchanged(with_count(seen, c.id, c.source_count), c),
{
    lemma_with_count(seen, c.id, c.source_count, c.id);
}

/// Handling one concept does not make another look handled.
pub proof fn handling_is_per_concept(seen: Seq<(u64, i64)>, id: u64, count: i64, other: u64)
    requires
        id != other,
    ensures
        remembered(with_count(seen, id, count), other) == remembered(seen, other),
{
    lemma_with_count(seen, id, count, other);
}

/// One step of a cycle: moving on, the candidates, or a reply.
pub open spec fn steps(run: CycleRun, next: CycleRun) -> bool {
    match run.asked() {
        CycleRequest::MoveOn => run.moved(next),
        CycleRequest::FetchCandidates { min } => run.supplied(next.candidates@, next),
        CycleRequest::Finish { report } => false,
        _ => exists|reply: CycleReply| run.expects(reply) && #[trigger] run.answered(reply, next),
    }
}

/// One step in the life of a daemon: one of the cycle at hand, or after its end
/// the beginning of the next, which keeps the memory.
pub open spec fn lives_on(run: CycleRun, next: CycleRun) -> bool {
    ||| steps(run, next)
    ||| run.asked() is Finish && next.begun() && next.memory == run.memory
}

/// The states of a daemon's cycles, one after the other.
pub open spec fn is_life(runs: Seq<CycleRun>) -> bool {
    &&& forall|i: int| 0 <= i < runs.len() ==> (#[trigger] runs[i]).valid()
    &&& forall|i: int, j: int|
        0 <= i && j == i + 1 && j < runs.len() ==> lives_on(#[trigger] runs[i], #[trigger] runs[j])
}

/// The states of one whole cycle.
pub open spec fn is_cycle(runs: Seq<CycleRun>) -> bool {
    &&& runs.len() > 0
    &&& forall|i: int| 0 <= i < runs.len() ==> (#[trigger] runs[i]).valid()
    &&& runs[0].begun()
    &&& forall|i: int, j: int|
        0 <= i && j == i + 1 && j < runs.len() ==> steps(#[trigger] runs[i], #[trigger] runs[j])
    &&& runs.last().asked() is Finish
}

proof fn lemma_crystallized_stays(runs: Seq<CycleRun>, i: int, j: int, id: u64)
    requires
        is_life(runs),
        0 <= i <= j < runs.len(),
        runs[i].memory.crystallized@.contains(id),
    ensures
        runs[j].memory.crystallized@.contains(id),
    decreases j - i,
{
    if i < j {
        lemma_crystallized_stays(runs, i, j - 1, id);
        let before = runs[j - 1].memory.crystallized@;
        let after = runs[j].memory.crystallized@;
        assert(lives_on(runs[j - 1], runs[j]));
        let k = choose|k: int| 0 <= k < before.len() && before[k] == id;
        assert(after[k] == id);
    }
}

/// A concept is crystallized at most once in the life of a daemon, over any number
/// of cycles: no two of its requests ask for an identity of the same concept.
pub proof fn one_identity_per_concept(runs: Seq<CycleRun>, i: int, j: int)
    requires
        is_life(runs),
        0 <= i < j < runs.len(),
        runs[i].asked() is Crystallize,
        runs[j].asked() is Crystallize,
    ensures
        runs[i].asked()->Crystallize_concept != runs[j].asked()->Crystallize_concept,
{
    let id = runs[i].here();
    let before = runs[i].memory.crystallized@;
    assert(lives_on(runs[i], runs[i + 1]));
    assert(runs[i + 1].memory.crystallized@ == before.push(id));
    assert(before.push(id)[before.len() as int] == id);
    lemma_crystallized_stays(runs, i + 1, j, id);
}

proof fn lemma_candidates_stay(runs: Seq<CycleRun>, i: int, j: int)
    requires
        is_cycle(runs),
        0 <= i <= j < runs.len(),
        runs[i].stage != CycleStage::Fetching,
    ensures
        runs[j].stage != CycleStage::Fetching,
        runs[j].candidates == runs[i].candidates,
    decreases j - i,
{
    if i < j {
        lemma_candidates_stay(runs, i, j - 1);
        assert(steps(runs[j - 1], runs[j]));
    }
}

proof fn lemma_idle_so_far(runs: Seq<CycleRun>, i: int)
    requires
        is_cycle(runs),
        0 <= i < runs.len(),
        forall|k: int|
            0 <= k < runs.last().candidates@.len() ==> unchanged(
                runs[0].memory.seen@,
                #[trigger] runs.last().candidates@[k],
            ),
    ensures
        runs[i].memory == runs[0].memory,
        runs[i].report == runs[0].report,
        !runs[i].handling(),
        runs[i].mitosis_children == 0,
        runs[i].identities_created == 0,
        runs[i].skipped_unchanged == runs[i].at,
    decreases i,
{
    if i > 0 {
        lemma_idle_so_far(runs, i - 1);
        assert(steps(runs[i - 1], runs[i]));
        if runs[i - 1].stage != CycleStage::Fetching {
            lemma_candidates_stay(runs, i - 1, runs.len() - 1);
        }
    }
}

/// After a cycle, another one whose concepts have not grown beyond what the first
/// one handled splits nothing, scans nothing and creates nothing: its only request
/// is for the candidates, it passes over all of them, and it ends with the report
/// of its decay pass.
pub proof fn steady_cycles_are_idle(first: Seq<CycleRun>, second: Seq<CycleRun>)
    requires
        is_cycle(first),
        is_cycle(second),
        second[0].memory == first.last().memory,
        forall|k: int|
            0 <= k < second.last().candidates@.len() ==> exists|h: int|
                0 <= h < first.last().candidates@.len() && (
                #[trigger] first.last().candidates@[h]).id == (
                #[trigger] second.last().candidates@[k]).id
                    && first.last().candidates@[h].source_count
                    >= second.last().candidates@[k].source_count,
    ensures
        forall|i: int|
            0 <= i < second.len() - 1 ==> (#[trigger] second[i]).asked() is MoveOn
                || second[i].asked() is FetchCandidates,
        second.last().asked() == (CycleRequest::Finish { report: second[0].report }),
        second.last().memory == second[0].memory,
        second.last().mitosis_children == 0,
        second.last().identities_created == 0,
        second.last().skipped_unchanged == second.last().candidates@.len(),
{
    let seen = second[0].memory.seen@;
    let handled = first.last().candidates@;
    let found = second.last().candidates@;
    assert(first.last().valid());
    assert forall|k: int| 0 <= k < found.len() implies unchanged(seen, #[trigger] found[k]) by {
        let h = choose|h: int|
            0 <= h < handled.len() && (#[trigger] handled[h]).id == found[k].id
                && handled[h].source_count >= found[k].source_count;
        assert(unchanged(seen, handled[h]));
    }
    assert forall|i: int| 0 <= i < second.len() - 1 implies (#[trigger] second[i]).asked() is MoveOn
        || second[i].asked() is FetchCandidates by {
        lemma_idle_so_far(second, i);
        assert(steps(second[i], second[i + 1]));
    }
    lemma_idle_so_far(second, second.len() - 1);
}

/// A daemon that has handled nothing remembers nothing, and what it handled last
/// is what it remembers.
pub proof fn the_latest_count_is_remembered(seen: Seq<(u64, i64)>, id: u64, count: i64)
    ensures
        remembered(Seq::<(u64, i64)>::empty(), id) is None,
        remembered(with_count(seen, id, count), id) == Some(count),
{
    lemma_with_count(seen, id, count, id);
}

/// A concept is passed over exactly where it was handled at its count or a larger
/// one; one that was never handled is passed over only below a count of zero.
pub proof fn grown_concepts_are_handled(seen: Seq<(u64, i64)>, c: ConceptCandidate)
    ensures
        remembered(seen, c.id) matches Some(n) ==> (unchanged(seen, c) <==> n >= c.source_count),
        remembered(seen, c.id) is None ==> (unchanged(seen, c) <==> c.source_count < 0),
{
}

/// From state `p` on the concept of `c` is handled: it is split where there is a
/// splitter, it gets an identity where it has none, which is linked to it, and it
/// is scanned where there is a detector.
pub open spec fn handles(runs: Seq<CycleRun>, p: int, c: ConceptCandidate) -> bool {
    &&& 0 <= p
    &&& p + 1 < runs.len()
    &&& runs[p].asked() == if runs[p].has_splitter {
        CycleRequest::Split { concept: c.id }
    } else {
        CycleRequest::MoveOn
    }
    &&& if runs[p].memory.crystallized@.contains(c.id) {
        scans(runs, p + 2, c)
    } else {
        &&& runs[p + 1].asked() == (CycleRequest::Crystallize { concept: c.id })
        &&& p + 2 < runs.len()
        &&& runs[p + 2].memory.crystallized@.contains(c.id)
        &&& match runs[p + 2].asked() {
            CycleRequest::Define { concept, identity } => concept == c.id && p + 3 < runs.len()
                && runs[p + 3].identities_created == runs[p].identities_created + 1 && scans(
                runs,
                p + 3,
                c,
            ),
            _ => scans(runs, p + 2, c),
        }
    }
}

/// State `p` scans the concept where there is a detector.
pub open spec fn scans(runs: Seq<CycleRun>, p: int, c: ConceptCandidate) -> bool {
    &&& p < runs.len()
    &&& runs[p].asked() == if runs[p].has_detector {
        CycleRequest::Scan { concept: c.id }
    } else {
        CycleRequest::MoveOn
    }
}

proof fn lemma_cycle_step(runs: Seq<CycleRun>, i: int)
    requires
        is_cycle(runs),
        0 <= i < runs.len(),
        !(runs[i].asked() is Finish),
    ensures
        i + 1 < runs.len(),
        steps(runs[i], runs[i + 1]),
        runs[i].valid(),
        runs[i + 1].valid(),
{
    if i == runs.len() - 1 {
        assert(runs.last() == runs[i]);
    }
    assert(steps(runs[i], runs[i + 1]));
    assert(runs[i].valid() && runs[i + 1].valid());
}

proof fn lemma_concept_handled(runs: Seq<CycleRun>, p: int) -> (end: int)
    requires
        is_cycle(runs),
        0 <= p < runs.len(),
        runs[p].stage == CycleStage::Splitting,
    ensures
        handles(runs, p, runs[p].candidates@[runs[p].at as int]),
        p < end < runs.len(),
        runs[end].stage == CycleStage::Arriving,
        runs[end].at == runs[p].at + 1,
        runs[end].candidates == runs[p].candidates,
        remembered(runs[end].memory.seen@, runs[p].here()) == Some(
            runs[p].candidates@[runs[p].at as int].source_count,
        ),
{
    let c = runs[p].candidates@[runs[p].at as int];
    assert(runs[p].valid());
    lemma_cycle_step(runs, p);
    lemma_cycle_step(runs, p + 1);
    let had = runs[p].memory.crystallized@.contains(c.id);
    if !had {
        let before = runs[p + 1].memory.crystallized@;
        assert(runs[p + 2].memory.crystallized@ == before.push(c.id));
        assert(before.push(c.id)[before.len() as int] == c.id);
    }
    let s: int = if !had && runs[p + 2].stage is Defining {
        lemma_cycle_step(runs, p + 2);
        p + 3
    } else {
        p + 2
    };
    assert(runs[s].stage == CycleStage::Scanning);
    lemma_cycle_step(runs, s);
    let l: int = if runs[s + 1].stage == CycleStage::Counting {
        lemma_cycle_step(runs, s + 1);
        s + 2
    } else {
        s + 1
    };
    assert(runs[l].stage == CycleStage::Leaving);
    lemma_cycle_step(runs, l);
    lemma_with_count(runs[l].memory.seen@, c.id, c.source_count, c.id);
    l + 1
}

proof fn lemma_candidate_reached(runs: Seq<CycleRun>, k: int) -> (p: int)
    requires
        is_cycle(runs),
        0 <= k < runs.last().candidates@.len(),
    ensures
        0 <= p < runs.len(),
        runs[p].stage == CycleStage::Arriving,
        runs[p].at == k,
        runs[p].candidates == runs.last().candidates,
    decreases k,
{
    if k == 0 {
        if runs[0].stage == CycleStage::Fetching {
            lemma_cycle_step(runs, 0);
            lemma_candidates_stay(runs, 1, runs.len() - 1);
            1
        } else {
            lemma_candidates_stay(runs, 0, runs.len() - 1);
            0
        }
    } else {
        let before = lemma_candidate_reached(runs, k - 1);
        lemma_cycle_step(runs, before);
        if runs[before + 1].stage == CycleStage::Arriving {
            before + 1
        } else {
            lemma_concept_handled(runs, before + 1)
        }
    }
}

/// A whole cycle comes to every candidate in turn. One that has not grown since it
/// was handled is passed over; every other is handled.
pub proof fn every_grown_concept_is_handled(runs: Seq<CycleRun>, k: int) -> (p: int)
    requires
        is_cycle(runs),
        0 <= k < runs.last().candidates@.len(),
    ensures
        0 <= p,
        p + 1 < runs.len(),
        runs[p].at == k,
        match remembered(runs[p].memory.seen@, runs.last().candidates@[k].id) {
            Some(n) => n < runs.last().candidates@[k].source_count ==> handles(
                runs,
                p + 1,
                runs.last().candidates@[k],
            ),
            None => 0 <= runs.last().candidates@[k].source_count ==> handles(
                runs,
                p + 1,
                runs.last().candidates@[k],
            ),
        },
{
    let p = lemma_candidate_reached(runs, k);
    lemma_cycle_step(runs, p);
    if runs[p + 1].stage == CycleStage::Splitting {
        let end = lemma_concept_handled(runs, p + 1);
    }
    p
}

/// A cycle asks for the concepts that hold at least ten memories.
pub proof fn cycles_ask_for_overloaded_concepts(run: CycleRun)
    requires
        run.stage == CycleStage::Fetching,
    ensures
        run.asked() == (CycleRequest::FetchCandidates { min: 10 }),
{
}

/// A cycle that scanned a concept reports the contradictions that were counted
/// after it; one that could not count them reports what it reported before.
pub proof fn scans_are_counted(run: CycleRun, reply: CycleReply, next: CycleRun)
    requires
        run.stage == CycleStage::Counting,
        run.expects(reply),
        run.answered(reply, next),
    ensures
        reply->contradictions matches Some(n) ==> next.report.contradictions_linked == n,
        reply->contradictions is None ==> next.report.contradictions_linked
            == run.report.contradictions_linked,
        next.report.pruned == run.report.pruned,
        next.report.compressed == run.report.compressed,
        next.report.promoted == run.report.promoted,
{
}

/// A cycle counts the children of its splits, up to the largest number.
pub proof fn children_are_counted(run: CycleRun, n: u64, next: CycleRun)
    requires
        run.stage == CycleStage::Splitting,
        run.answered(CycleReply::Split { children: Some(n) }, next),
        run.mitosis_children + n <= u64::MAX,
    ensures
        next.mitosis_children == run.mitosis_children + n,
{
}

/// What a cycle asks for follows from where it stands: it ends with its report
/// behind the last concept and not before, splits and scans only where it can, and
/// crystallizes a concept that has no identity yet.
pub proof fn cycles_ask_for_what_is_due(run: CycleRun)
    requires
        run.valid(),
    ensures
        run.stage is Arriving && run.at < run.candidates@.len() ==> run.asked() is MoveOn,
        run.stage is Arriving && run.at == run.candidates@.len() ==> run.asked() == (
        CycleRequest::Finish { report: run.report }),
        run.asked() is Finish ==> run.at >= run.candidates@.len(),
        run.stage is Splitting ==> (run.asked() is Split <==> run.has_splitter),
        run.stage is Scanning ==> (run.asked() is Scan <==> run.has_detector),
        run.stage is Crystallizing ==> (run.asked() is Crystallize
            <==> !run.memory.crystallized@.contains(run.here())),
        run.asked() matches CycleRequest::Split { concept } ==> concept == run.here(),
        run.asked() matches CycleRequest::Scan { concept } ==> concept == run.here(),
        run.asked() matches CycleRequest::Crystallize { concept } ==> concept == run.here(),
        run.stage matches CycleStage::Defining { identity } ==> run.asked() == (
        CycleRequest::Define { concept: run.here(), identity }),
{
}

/// A cycle begins before its first concept, with nothing split, crystallized or
/// passed over.
pub proof fn cycles_begin_with_nothing_done(run: CycleRun)
    requires
        run.begun(),
    ensures
        run.stage is Fetching || run.stage is Arriving,
        run.candidates@.len() == 0,
        run.at == 0,
        run.mitosis_children == 0,
        run.identities_created == 0,
        run.skipped_unchanged == 0,
        run.stage is Arriving ==> run.asked() is Finish,
{
}

} // verus!
