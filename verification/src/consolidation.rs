//! Consolidation: which memories fade, which are kept for good, and the report
//! of a cycle.

use crate::config::ConsolidationConfig;
use crate::double::Double;
use crate::error::{ErrorView, Outcome};
use crate::ids::{node_param, MAX_PARAM};
use crate::text::decimal;
use crate::types::ConsolidationReport;
use vstd::prelude::*;

verus! {

/// What happens to a memory.
#[derive(Clone, Copy, Debug, PartialEq, Eq, Structural)]
pub enum DecayAction {
    Prune,
    Compress,
    Promote,
    Keep,
}

/// What decides over a raw memory.
#[derive(Clone, Copy, Debug, PartialEq, Eq, Structural)]
pub struct DecayInput {
    pub id: u64,
    /// How much of it is retained.
    pub kept: Double,
    pub importance: Double,
    pub activation_count: i64,
}

/// What happens to a memory: the weakest are pruned, weak ones compressed, and
/// strong ones in frequent use promoted.
pub open spec fn action_on(input: DecayInput, config: ConsolidationConfig) -> DecayAction {
    if input.kept.lt(config.prune_retention) && input.importance.lt(config.prune_importance) {
        DecayAction::Prune
    } else if input.kept.lt(config.compress_retention) && input.importance.lt(
        config.compress_importance,
    ) {
        DecayAction::Compress
    } else if config.promote_retention.lt(input.kept) && input.activation_count
        > config.promote_min_activations {
        DecayAction::Promote
    } else {
        DecayAction::Keep
    }
}

/// Decides what happens to a memory.
pub fn decay_action(input: &DecayInput, config: &ConsolidationConfig) -> (r: DecayAction)
    ensures
        r == action_on(*input, *config),
{
    if input.kept.less(config.prune_retention) && input.importance.less(config.prune_importance) {
        DecayAction::Prune
    } else if input.kept.less(config.compress_retention) && input.importance.less(
        config.compress_importance,
    ) {
        DecayAction::Compress
    } else if config.promote_retention.less(input.kept) && input.activation_count
        > config.promote_min_activations {
        DecayAction::Promote
    } else {
        DecayAction::Keep
    }
}

/// The memories that change, in order, each with what happens to it.
pub open spec fn changes(inputs: Seq<DecayInput>, config: ConsolidationConfig) -> Seq<
    (u64, DecayAction),
>
    decreases inputs.len(),
{
    if inputs.len() == 0 {
        Seq::empty()
    } else {
        let before = changes(inputs.drop_last(), config);
        match action_on(inputs.last(), config) {
            DecayAction::Keep => before,
            action => before.push((inputs.last().id, action)),
        }
    }
}

/// How many of the changes are of one kind.
pub open spec fn count_of_kind(list: Seq<(u64, DecayAction)>, kind: DecayAction) -> nat
    decreases list.len(),
{
    if list.len() == 0 {
        0
    } else {
        count_of_kind(list.drop_last(), kind) + if list.last().1 == kind {
            1nat
        } else {
            0nat
        }
    }
}

/// What a decay pass asks for next.
#[derive(Clone, Copy, Debug, PartialEq, Eq, Structural)]
pub enum DecayRequest {
    Prune { engram: i64 },
    Compress { engram: i64 },
    Promote { engram: i64 },
    Finish { report: ConsolidationReport },
}

/// A decay pass under way.
#[derive(Debug)]
pub struct DecayRun {
    pub plan: Vec<(u64, DecayAction)>,
    pub at: usize,
    pub report: ConsolidationReport,
}

impl DecayRun {
    /// The plan holds changes only, and the report counts those that are done.
    pub open spec fn valid(&self) -> bool {
        &&& self.at <= self.plan@.len()
        &&& forall|k: int|
            0 <= k < self.plan@.len() ==> (#[trigger] self.plan@[k]).1 != DecayAction::Keep
        &&& self.report.pruned == count_of_kind(self.done(), DecayAction::Prune)
        &&& self.report.compressed == count_of_kind(self.done(), DecayAction::Compress)
        &&& self.report.promoted == count_of_kind(self.done(), DecayAction::Promote)
        &&& self.report.contradictions_linked == 0
    }

    /// The changes that are done.
    pub open spec fn done(&self) -> Seq<(u64, DecayAction)> {
        self.plan@.take(self.at as int)
    }

    /// The request at hand, or the id that does not fit a query.
    pub open spec fn asked(&self) -> Result<DecayRequest, u64> {
        if self.at >= self.plan@.len() {
            Ok(DecayRequest::Finish { report: self.report })
        } else {
            let (id, action) = self.plan@[self.at as int];
            if id > MAX_PARAM {
                Err(id)
            } else {
                match action {
                    DecayAction::Prune => Ok(DecayRequest::Prune { engram: id as i64 }),
                    DecayAction::Compress => Ok(DecayRequest::Compress { engram: id as i64 }),
                    _ => Ok(DecayRequest::Promote { engram: id as i64 }),
                }
            }
        }
    }

    /// Plans a decay pass over the raw memories.
    pub fn begin(inputs: &Vec<DecayInput>, config: &ConsolidationConfig) -> (r: DecayRun)
        ensures
            r.valid(),
            r.plan@ == changes(inputs@, *config),
            r.at == 0,
    {
        let mut plan: Vec<(u64, DecayAction)> = Vec::new();
        let mut i: usize = 0;
        while i < inputs.len()
            invariant
                i <= inputs@.len(),
                plan@ == changes(inputs@.take(i as int), *config),
                forall|k: int|
                    0 <= k < plan@.len() ==> (#[trigger] plan@[k]).1 != DecayAction::Keep,
            decreases inputs@.len() - i,
        {
            assert(inputs@.take(i + 1).drop_last() =~= inputs@.take(i as int));
            assert(inputs@.take(i + 1).last() == inputs@[i as int]);
            let action = decay_action(&inputs[i], config);
            if action != DecayAction::Keep {
                plan.push((inputs[i].id, action));
            }
            i += 1;
        }
        assert(inputs@.take(i as int) =~= inputs@);
        assert(plan@.take(0) =~= Seq::empty());
        DecayRun { plan, at: 0, report: ConsolidationReport::default() }
    }

    /// What to do next. Fails where the id of an engram does not fit a query.
    pub fn request(&self) -> (r: Outcome<DecayRequest>)
        requires
            self.valid(),
        ensures
            match r {
                Ok(request) => self.asked() == Ok::<DecayRequest, u64>(request),
                Err(e) => match self.asked() {
                    Ok(_) => false,
                    Err(id) => e@ == ErrorView::Storage(
                        "node id out of range: "@ + decimal(id as nat),
                    ),
                },
            },
    {
        if self.at >= self.plan.len() {
            return Ok(DecayRequest::Finish { report: self.report });
        }
        let (id, action) = self.plan[self.at];
        match node_param(id) {
            Ok(engram) => Ok(
                match action {
                    DecayAction::Prune => DecayRequest::Prune { engram },
                    DecayAction::Compress => DecayRequest::Compress { engram },
                    _ => DecayRequest::Promote { engram },
                },
            ),
            Err(e) => Err(e),
        }
    }

    /// Takes note that the change at hand is stored.
    pub fn advance(self) -> (r: DecayRun)
        requires
            self.valid(),
            self.at < self.plan@.len(),
        ensures
            r.valid(),
            r.plan == self.plan,
            r.at == self.at + 1,
    {
        proof {
            assert(self.plan@.len() == self.plan.len());
            let next = self.plan@.take(self.at + 1);
            assert(next.drop_last() =~= self.done());
            assert(next.last() == self.plan@[self.at as int]);
            lemma_kinds_bound(self.done());
        }
        let mut next = self;
        let (_id, action) = next.plan[next.at];
        match action {
            DecayAction::Prune => {
                next.report.pruned = next.report.pruned + 1;
            },
            DecayAction::Compress => {
                next.report.compressed = next.report.compressed + 1;
            },
            _ => {
                next.report.promoted = next.report.promoted + 1;
            },
        }
        next.at = next.at + 1;
        next
    }
}

proof fn lemma_kinds_bound(list: Seq<(u64, DecayAction)>)
    ensures
        count_of_kind(list, DecayAction::Prune) + count_of_kind(list, DecayAction::Compress)
            + count_of_kind(list, DecayAction::Promote) + count_of_kind(list, DecayAction::Keep)
            == list.len(),
    decreases list.len(),
{
    if list.len() > 0 {
        lemma_kinds_bound(list.drop_last());
    }
}

/// A finished pass reports every change once: its counts add up to the number of
/// changes, which is at most the number of memories.
pub proof fn report_counts_every_change(
    run: DecayRun,
    inputs: Seq<DecayInput>,
    config: ConsolidationConfig,
)
    requires
        run.valid(),
        run.plan@ == changes(inputs, config),
        run.at == run.plan@.len(),
    ensures
        run.report.pruned + run.report.compressed + run.report.promoted == run.plan@.len(),
        run.plan@.len() <= inputs.len(),
{
    lemma_kinds_bound(run.done());
    assert(run.done() =~= run.plan@);
    lemma_no_keeps(run.plan@);
    lemma_changes_bound(inputs, config);
}

proof fn lemma_no_keeps(list: Seq<(u64, DecayAction)>)
    requires
        forall|k: int| 0 <= k < list.len() ==> (#[trigger] list[k]).1 != DecayAction::Keep,
    ensures
        count_of_kind(list, DecayAction::Keep) == 0,
    decreases list.len(),
{
    if list.len() > 0 {
        assert(list[list.len() - 1].1 != DecayAction::Keep);
        lemma_no_keeps(list.drop_last());
    }
}

proof fn lemma_changes_bound(inputs: Seq<DecayInput>, config: ConsolidationConfig)
    ensures
        changes(inputs, config).len() <= inputs.len(),
    decreases inputs.len(),
{
    if inputs.len() > 0 {
        lemma_changes_bound(inputs.drop_last(), config);
    }
}

/// With thresholds in order, a memory that would be pruned is weak enough to be
/// compressed, and one that is promoted is neither.
pub proof fn actions_follow_strength(input: DecayInput, config: ConsolidationConfig)
    requires
        config.prune_retention.le(config.compress_retention),
        config.prune_importance.le(config.compress_importance),
        config.compress_retention.le(config.promote_retention),
    ensures
        action_on(input, config) == DecayAction::Prune ==> input.kept.lt(config.compress_retention)
            && input.importance.lt(config.compress_importance),
        action_on(input, config) == DecayAction::Promote ==> !input.kept.lt(
            config.compress_retention,
        ),
{
}

/// A memory is pruned exactly where its retention and its importance are both below
/// the thresholds of pruning.
pub proof fn pruned_where_forgotten(input: DecayInput, config: ConsolidationConfig)
    ensures
        action_on(input, config) is Prune <==> input.kept.lt(config.prune_retention)
            && input.importance.lt(config.prune_importance),
{
}

/// A memory is compressed exactly where it is not pruned, and its retention and its
/// importance are both below the thresholds of compressing.
pub proof fn compressed_where_weak(input: DecayInput, config: ConsolidationConfig)
    ensures
        action_on(input, config) is Compress <==> !(input.kept.lt(config.prune_retention)
            && input.importance.lt(config.prune_importance)) && input.kept.lt(
            config.compress_retention,
        ) && input.importance.lt(config.compress_importance),
{
}

/// A memory is promoted exactly where it is neither pruned nor compressed, its
/// retention is above the threshold of promoting, and it was activated more often
/// than the least that promoting asks for.
pub proof fn promoted_where_strong(input: DecayInput, config: ConsolidationConfig)
    ensures
        action_on(input, config) is Promote <==> !(input.kept.lt(config.prune_retention)
            && input.importance.lt(config.prune_importance)) && !(input.kept.lt(
            config.compress_retention,
        ) && input.importance.lt(config.compress_importance)) && config.promote_retention.lt(
            input.kept,
        ) && input.activation_count > config.promote_min_activations,
{
}

/// Every other memory is kept as it is.
pub proof fn kept_otherwise(input: DecayInput, config: ConsolidationConfig)
    ensures
        action_on(input, config) is Keep <==> !(input.kept.lt(config.prune_retention)
            && input.importance.lt(config.prune_importance)) && !(input.kept.lt(
            config.compress_retention,
        ) && input.importance.lt(config.compress_importance)) && !(config.promote_retention.lt(
            input.kept,
        ) && input.activation_count > config.promote_min_activations),
{
}

/// A pass changes exactly the memories that are not kept as they are, each once, in
/// order, and each as it deserves.
pub proof fn passes_change_what_is_not_kept(inputs: Seq<DecayInput>, config: ConsolidationConfig)
    ensures
        changes(inputs, config) == inputs.filter(
            |input: DecayInput| !(action_on(input, config) is Keep),
        ).map_values(|input: DecayInput| (input.id, action_on(input, config))),
    decreases inputs.len(),
{
    reveal(Seq::filter);
    let changed = |input: DecayInput| !(action_on(input, config) is Keep);
    let change = |input: DecayInput| (input.id, action_on(input, config));
    if inputs.len() > 0 {
        let fewer = inputs.drop_last();
        passes_change_what_is_not_kept(fewer, config);
        assert(fewer.filter(changed).push(inputs.last()).map_values(change) =~= fewer.filter(
            changed,
        ).map_values(change).push(change(inputs.last())));
    } else {
        assert(inputs.filter(changed).map_values(change) =~= Seq::empty());
    }
}

/// Each change is asked of the store by its own request, on its own memory, and a
/// pass ends where no change is left.
pub proof fn changes_are_requested(run: DecayRun, id: u64, action: DecayAction)
    requires
        run.valid(),
        run.at < run.plan@.len() ==> run.plan@[run.at as int] == (id, action),
        id <= i64::MAX,
    ensures
        run.at < run.plan@.len() && action is Prune ==> run.asked() == Ok::<DecayRequest, u64>(
            DecayRequest::Prune { engram: id as i64 },
        ),
        run.at < run.plan@.len() && action is Compress ==> run.asked() == Ok::<DecayRequest, u64>(
            DecayRequest::Compress { engram: id as i64 },
        ),
        run.at < run.plan@.len() && action is Promote ==> run.asked() == Ok::<DecayRequest, u64>(
            DecayRequest::Promote { engram: id as i64 },
        ),
        run.at == run.plan@.len() ==> run.asked() == Ok::<DecayRequest, u64>(
            DecayRequest::Finish { report: run.report },
        ),
{
}

/// A finished pass reports how many memories were pruned, compressed and promoted,
/// counted one by one.
pub proof fn reports_count_each_kind(
    run: DecayRun,
    inputs: Seq<DecayInput>,
    config: ConsolidationConfig,
)
    requires
        run.valid(),
        run.plan@ == changes(inputs, config),
        run.at == run.plan@.len(),
    ensures
        run.report.pruned == inputs.filter(
            |input: DecayInput| action_on(input, config) is Prune,
        ).len(),
        run.report.compressed == inputs.filter(
            |input: DecayInput| action_on(input, config) is Compress,
        ).len(),
        run.report.promoted == inputs.filter(
            |input: DecayInput| action_on(input, config) is Promote,
        ).len(),
        run.report.contradictions_linked == 0,
{
    assert(run.done() =~= run.plan@);
    lemma_kind_count(inputs, config, DecayAction::Prune);
    lemma_kind_count(inputs, config, DecayAction::Compress);
    lemma_kind_count(inputs, config, DecayAction::Promote);
    let pruned = |input: DecayInput| action_on(input, config) is Prune;
    let compressed = |input: DecayInput| action_on(input, config) is Compress;
    let promoted = |input: DecayInput| action_on(input, config) is Promote;
    assert(pruned =~= |input: DecayInput| action_on(input, config) == DecayAction::Prune);
    assert(compressed =~= |input: DecayInput| action_on(input, config) == DecayAction::Compress);
    assert(promoted =~= |input: DecayInput| action_on(input, config) == DecayAction::Promote);
}

proof fn lemma_kind_count(
    inputs: Seq<DecayInput>,
    config: ConsolidationConfig,
    kind: DecayAction,
)
    requires
        kind != DecayAction::Keep,
    ensures
        count_of_kind(changes(inputs, config), kind) == inputs.filter(
            |input: DecayInput| action_on(input, config) == kind,
        ).len(),
    decreases inputs.len(),
{
    reveal(Seq::filter);
    if inputs.len() > 0 {
        let fewer = inputs.drop_last();
        lemma_kind_count(fewer, config, kind);
        let before = changes(fewer, config);
        let last = inputs.last();
        if action_on(last, config) != DecayAction::Keep {
            assert(before.push((last.id, action_on(last, config))).drop_last() =~= before);
        }
    }
}

} // verus!
