//! The learned reranker: its model file, the preference pairs drawn from the
//! feedback log, and the rule for its share in the ranking.

use crate::double::Double;
use crate::env::{non_empty, or_else, trimmed_non_empty, truthy, Env};
use crate::json::{
    double_data, double_view, field, items_view, lemma_lookup_push, list, no_fields, read_json,
    text_of, text_view, u64_of, written, Json, JsonNumber, JsonView, ObjectBuilder,
};
use crate::text::{
    decimal, float_text, is_float_text, lowered, same, show_u64, to_lower, trim, views,
};
use crate::types::ResonanceResult;
use vstd::arithmetic::div_mod::lemma_fundamental_div_mod_converse;
use vstd::prelude::*;

verus! {

/// How many features a candidate has.
pub const FEATURE_DIM: usize = 9;

/// How many of them come from the log; the last is the position.
pub const LOGGED_FEATURES: usize = 8;

/// The name of a feature; empty beyond the last.
pub open spec fn feature_view(i: int) -> Seq<char> {
    if i == 0 {
        "semantic_sim"@
    } else if i == 1 {
        "recency_weight"@
    } else if i == 2 {
        "emotional_charge"@
    } else if i == 3 {
        "importance_score"@
    } else if i == 4 {
        "identity_alignment"@
    } else if i == 5 {
        "reward_score"@
    } else if i == 6 {
        "reward_factor"@
    } else if i == 7 {
        "resonance_score"@
    } else {
        ""@
    }
}

/// The field of the log that holds a feature.
pub fn logged_feature(i: usize) -> (r: &'static str)
    ensures
        r@ == feature_view(i as int),
{
    if i == 0 {
        "semantic_sim"
    } else if i == 1 {
        "recency_weight"
    } else if i == 2 {
        "emotional_charge"
    } else if i == 3 {
        "importance_score"
    } else if i == 4 {
        "identity_alignment"
    } else if i == 5 {
        "reward_score"
    } else if i == 6 {
        "reward_factor"
    } else if i == 7 {
        "resonance_score"
    } else {
        ""
    }
}

/// The model: a weight for each feature, and a bias.
#[derive(Debug)]
pub struct RerankerModel {
    pub version: u32,
    /// How many preference pairs were seen in training.
    pub trained_samples: u64,
    /// How many rewards were given.
    pub reward_events: u64,
    pub weights: Vec<Double>,
    pub bias: Double,
}

/// The version of a new model.
pub fn default_version() -> (r: u32)
    ensures
        r == 1,
{
    1
}

impl RerankerModel {
    /// An untrained model: all weights are zero.
    pub fn new() -> (r: RerankerModel)
        ensures
            r.version == 1,
            r.trained_samples == 0,
            r.reward_events == 0,
            r.weights@ == Seq::new(FEATURE_DIM as nat, |i: int| Double { bits: 0 }),
            r.bias.bits == 0,
    {
        let mut weights: Vec<Double> = Vec::new();
        let mut i: usize = 0;
        while i < FEATURE_DIM
            invariant
                i <= FEATURE_DIM,
                weights@ == Seq::new(i as nat, |j: int| Double { bits: 0 }),
            decreases FEATURE_DIM - i,
        {
            weights.push(Double { bits: 0 });
            i += 1;
            assert(weights@ =~= Seq::new(i as nat, |j: int| Double { bits: 0 }));
        }
        RerankerModel {
            version: default_version(),
            trained_samples: 0,
            reward_events: 0,
            weights,
            bias: Double { bits: 0 },
        }
    }

    /// The shipped prior: similarity, learned reward and an early position
    /// count. Its weights are 3, 0.5, 0, 0.5, 0.5, 2, 1, 1 and -0.2, its bias -3.
    pub fn seed() -> (r: RerankerModel)
        ensures
            r.version == 1,
            r.trained_samples == 0,
            r.reward_events == 0,
            r.weights@ == seed_weights(),
            r.bias.bits == 0xC008_0000_0000_0000,
    {
        let mut weights: Vec<Double> = Vec::new();
        weights.push(Double { bits: 0x4008_0000_0000_0000 });
        weights.push(Double { bits: 0x3FE0_0000_0000_0000 });
        weights.push(Double { bits: 0 });
        weights.push(Double { bits: 0x3FE0_0000_0000_0000 });
        weights.push(Double { bits: 0x3FE0_0000_0000_0000 });
        weights.push(Double { bits: 0x4000_0000_0000_0000 });
        weights.push(Double { bits: 0x3FF0_0000_0000_0000 });
        weights.push(Double { bits: 0x3FF0_0000_0000_0000 });
        weights.push(Double { bits: 0xBFC9_9999_9999_999A });
        assert(weights@ =~= seed_weights());
        RerankerModel {
            version: default_version(),
            trained_samples: 0,
            reward_events: 0,
            weights,
            bias: Double { bits: 0xC008_0000_0000_0000 },
        }
    }

    /// Counts one reward.
    pub fn record_reward(&mut self)
        ensures
            final(self).reward_events == if old(self).reward_events < u64::MAX {
                (old(self).reward_events + 1) as u64
            } else {
                u64::MAX
            },
            final(self).version == old(self).version,
            final(self).trained_samples == old(self).trained_samples,
            final(self).weights == old(self).weights,
            final(self).bias == old(self).bias,
    {
        self.reward_events = self.reward_events.saturating_add(1);
    }

    /// Counts one pass over the preference pairs.
    pub fn record_epoch(&mut self, pairs: usize)
        ensures
            final(self).trained_samples == saturated(old(self).trained_samples + pairs),
            final(self).version == old(self).version,
            final(self).reward_events == old(self).reward_events,
            final(self).weights == old(self).weights,
            final(self).bias == old(self).bias,
    {
        self.trained_samples = self.trained_samples.saturating_add(pairs as u64);
    }

    /// Takes the weights and the bias that a training led to, and counts all its
    /// passes over the preference pairs.
    pub fn record_training(&mut self, pairs: usize, weights: Vec<Double>, bias: Double)
        ensures
            final(self).trained_samples == saturated(old(self).trained_samples + EPOCHS * pairs),
            final(self).version == old(self).version,
            final(self).reward_events == old(self).reward_events,
            final(self).weights == weights,
            final(self).bias == bias,
    {
        let ghost before = self.trained_samples;
        self.weights = weights;
        self.bias = bias;
        let mut passes: usize = 0;
        while passes < EPOCHS
            invariant
                passes <= EPOCHS,
                self.trained_samples == saturated(before + passes * pairs),
                self.version == old(self).version,
                self.reward_events == old(self).reward_events,
                self.weights == weights,
                self.bias == bias,
            decreases EPOCHS - passes,
        {
            assert((passes + 1) * pairs == passes * pairs + pairs) by (nonlinear_arith);
            assert(passes * pairs >= 0) by (nonlinear_arith);
            self.record_epoch(pairs);
            passes += 1;
        }
    }
}

/// How often a training passes over its preference pairs.
pub const EPOCHS: usize = 20;

/// `n`, held at the largest number.
pub open spec fn saturated(n: int) -> u64 {
    if n <= u64::MAX {
        n as u64
    } else {
        u64::MAX
    }
}

/// The weights of the shipped prior.
pub open spec fn seed_weights() -> Seq<Double> {
    seq![
        Double { bits: 0x4008_0000_0000_0000 },
        Double { bits: 0x3FE0_0000_0000_0000 },
        Double { bits: 0 },
        Double { bits: 0x3FE0_0000_0000_0000 },
        Double { bits: 0x3FE0_0000_0000_0000 },
        Double { bits: 0x4000_0000_0000_0000 },
        Double { bits: 0x3FF0_0000_0000_0000 },
        Double { bits: 0x3FF0_0000_0000_0000 },
        Double { bits: 0xBFC9_9999_9999_999A },
    ]
}

/// How the share of the model in the ranking is found.
#[derive(Debug)]
pub enum AlphaRule {
    /// The ceiling at once.
    Ceiling,
    /// The ceiling times the rewards given, of those that are wanted.
    Ramp { reward_events: u64, min_pairs: u64 },
    /// This double, where it lies between 0 and 1; see [`fixed_alpha`].
    Fixed { text: String },
    /// None.
    Off,
}

/// The mode that a setting names; `auto` where it names none.
pub open spec fn alpha_mode_view(raw: Option<Seq<char>>) -> Seq<char> {
    match trimmed_non_empty(raw) {
        Some(s) => s,
        None => "auto"@,
    }
}

/// The mode that a setting names.
pub fn alpha_mode(raw: Option<&str>) -> (r: String)
    ensures
        r@ == alpha_mode_view(text_view(raw)),
{
    match raw {
        Some(s) => {
            let t = trim(s);
            if t.is_empty() {
                "auto".to_owned()
            } else {
                t.to_owned()
            }
        },
        None => "auto".to_owned(),
    }
}

/// How the share of the model is found: a ramp with the rewards given, unless
/// the setting pins a number.
pub fn resolve_alpha(raw: Option<&str>, reward_events: u64, min_pairs: u64) -> (r: AlphaRule)
    ensures
        ({
            let mode = alpha_mode_view(text_view(raw));
            if lowered(mode) == "auto"@ {
                if min_pairs == 0 {
                    r is Ceiling
                } else {
                    r == (AlphaRule::Ramp { reward_events, min_pairs })
                }
            } else if float_text(mode) {
                r matches AlphaRule::Fixed { text } && text@ == mode
            } else {
                r is Off
            }
        }),
{
    let mode = alpha_mode(raw);
    let low = to_lower(mode.as_str());
    if same(low.as_str(), "auto") {
        if min_pairs == 0 {
            AlphaRule::Ceiling
        } else {
            AlphaRule::Ramp { reward_events, min_pairs }
        }
    } else if is_float_text(mode.as_str()) {
        AlphaRule::Fixed { text: mode }
    } else {
        AlphaRule::Off
    }
}

/// The share that a pinned number gives: the number where it lies between 0 and
/// 1, else none.
pub fn fixed_alpha(value: Double) -> (r: Double)
    ensures
        r == if (Double { bits: 0 }).le(value) && value.le(
            Double { bits: 0x3FF0_0000_0000_0000 },
        ) {
            value
        } else {
            Double { bits: 0 }
        },
{
    if (Double { bits: 0 }).at_most(value) && value.at_most(
        Double { bits: 0x3FF0_0000_0000_0000 },
    ) {
        value
    } else {
        Double { bits: 0 }
    }
}

/// Whether a reward speaks for a recall, against it, or for neither.
#[derive(Clone, Copy, Debug, PartialEq, Eq, Structural)]
pub enum RewardSign {
    Positive,
    Negative,
    Neutral,
}

/// A reward above 0.2 speaks for, one below -0.2 against.
pub open spec fn sign_of(n: JsonNumber) -> RewardSign {
    match n {
        JsonNumber::Unsigned(u) => if u >= 1 {
            RewardSign::Positive
        } else {
            RewardSign::Neutral
        },
        JsonNumber::Signed(i) => if i >= 1 {
            RewardSign::Positive
        } else if i <= -1 {
            RewardSign::Negative
        } else {
            RewardSign::Neutral
        },
        JsonNumber::Float(d) => if (Double { bits: 0x3FC9_9999_9999_999A }).lt(d) {
            RewardSign::Positive
        } else if d.lt(Double { bits: 0xBFC9_9999_9999_999A }) {
            RewardSign::Negative
        } else {
            RewardSign::Neutral
        },
    }
}

/// What a reward speaks for.
pub fn reward_sign(n: JsonNumber) -> (r: RewardSign)
    ensures
        r == sign_of(n),
{
    match n {
        JsonNumber::Unsigned(u) => if u >= 1 {
            RewardSign::Positive
        } else {
            RewardSign::Neutral
        },
        JsonNumber::Signed(i) => if i >= 1 {
            RewardSign::Positive
        } else if i <= -1 {
            RewardSign::Negative
        } else {
            RewardSign::Neutral
        },
        JsonNumber::Float(d) => if (Double { bits: 0x3FC9_9999_9999_999A }).less(d) {
            RewardSign::Positive
        } else if d.less(Double { bits: 0xBFC9_9999_9999_999A }) {
            RewardSign::Negative
        } else {
            RewardSign::Neutral
        },
    }
}

/// The features of one logged candidate: the numbers of the log, the charge
/// without its sign, and the place at which the candidate was shown.
#[derive(Debug)]
pub struct FeatureRow {
    pub numbers: Vec<JsonNumber>,
    pub position: usize,
}

/// The features of a candidate by value.
pub open spec fn row_view(r: FeatureRow) -> (Seq<JsonNumber>, usize) {
    (r.numbers@, r.position)
}

/// The number under `key`; zero where there is none.
pub open spec fn number_under(row: JsonView, key: Seq<char>) -> JsonNumber {
    match field(row, key) {
        Some(JsonView::Number(n)) => n,
        _ => JsonNumber::Float(Double { bits: 0 }),
    }
}

/// The place of the emotional charge among the features.
pub const CHARGE_FEATURE: usize = 2;

/// A number without its sign.
pub open spec fn strength_view(n: JsonNumber) -> JsonNumber {
    match n {
        JsonNumber::Unsigned(_) => n,
        JsonNumber::Signed(i) => JsonNumber::Unsigned(
            if i < 0 {
                -i as u64
            } else {
                i as u64
            },
        ),
        JsonNumber::Float(d) => JsonNumber::Float(Double { bits: d.magnitude() as u64 }),
    }
}

/// A number without its sign.
pub fn strength(n: JsonNumber) -> (r: JsonNumber)
    ensures
        r == strength_view(n),
{
    match n {
        JsonNumber::Unsigned(u) => JsonNumber::Unsigned(u),
        JsonNumber::Signed(i) => if i < 0 {
            JsonNumber::Unsigned((-(i as i128)) as u64)
        } else {
            JsonNumber::Unsigned(i as u64)
        },
        JsonNumber::Float(d) => JsonNumber::Float(d.abs()),
    }
}

/// A feature of a logged candidate: of its emotional charge only the strength
/// counts.
pub open spec fn logged_number(row: JsonView, i: int) -> JsonNumber {
    if i == CHARGE_FEATURE {
        strength_view(number_under(row, feature_view(i)))
    } else {
        number_under(row, feature_view(i))
    }
}

/// The features of a logged candidate, in their order.
pub open spec fn logged_row(row: JsonView, position: usize) -> (Seq<JsonNumber>, usize) {
    (Seq::new(LOGGED_FEATURES as nat, |i: int| logged_number(row, i)), position)
}

/// The features of a logged candidate, in their order.
pub fn features_from_log(row: &Json, position: usize) -> (r: FeatureRow)
    ensures
        row_view(r) == logged_row(row@, position),
{
    let mut numbers: Vec<JsonNumber> = Vec::new();
    let mut i: usize = 0;
    while i < LOGGED_FEATURES
        invariant
            i <= LOGGED_FEATURES,
            numbers@.len() == i,
            forall|j: int| 0 <= j < i ==> numbers@[j] == logged_number(row@, j),
        decreases LOGGED_FEATURES - i,
    {
        let mut n = JsonNumber::Float(Double { bits: 0 });
        if let Some(v) = row.get(logged_feature(i)) {
            if let Some(found) = v.as_number() {
                n = found;
            }
        }
        if i == CHARGE_FEATURE {
            n = strength(n);
        }
        numbers.push(n);
        i += 1;
    }
    assert(numbers@ =~= logged_row(row@, position).0);
    FeatureRow { numbers, position }
}

/// A double of a result by the place of its feature.
pub open spec fn result_double(r: ResonanceResult, i: int) -> Double {
    if i == 0 {
        r.semantic_sim
    } else if i == 1 {
        r.recency_weight
    } else if i == 2 {
        r.emotional_charge
    } else if i == 3 {
        r.importance_score
    } else if i == 4 {
        r.identity_alignment
    } else if i == 5 {
        r.reward_score
    } else if i == 6 {
        r.reward_factor
    } else {
        r.resonance_score
    }
}

/// A feature of a result: of its emotional charge only the strength counts.
pub open spec fn result_number(r: ResonanceResult, i: int) -> JsonNumber {
    let n = JsonNumber::Float(result_double(r, i));
    if i == CHARGE_FEATURE {
        strength_view(n)
    } else {
        n
    }
}

/// The features of a result, in their order.
pub open spec fn result_row(r: ResonanceResult, position: usize) -> (Seq<JsonNumber>, usize) {
    (Seq::new(LOGGED_FEATURES as nat, |i: int| result_number(r, i)), position)
}

/// The features of a result at its position, in their order.
pub fn features_from_result(r: &ResonanceResult, position: usize) -> (out: FeatureRow)
    ensures
        row_view(out) == result_row(*r, position),
{
    let mut numbers: Vec<JsonNumber> = Vec::new();
    numbers.push(JsonNumber::Float(r.semantic_sim));
    numbers.push(JsonNumber::Float(r.recency_weight));
    numbers.push(strength(JsonNumber::Float(r.emotional_charge)));
    numbers.push(JsonNumber::Float(r.importance_score));
    numbers.push(JsonNumber::Float(r.identity_alignment));
    numbers.push(JsonNumber::Float(r.reward_score));
    numbers.push(JsonNumber::Float(r.reward_factor));
    numbers.push(JsonNumber::Float(r.resonance_score));
    assert(numbers@ =~= result_row(*r, position).0);
    FeatureRow { numbers, position }
}

/// A result whose doubles are all finite is read from the log with the features
/// that it had.
pub proof fn features_survive_the_log(r: ResonanceResult, position: usize)
    requires
        forall|i: int| 0 <= i < LOGGED_FEATURES ==> (#[trigger] result_double(r, i)).finite(),
    ensures
        logged_row(r.data_view(), position) == result_row(r, position),
{
    broadcast use lemma_lookup_push;

    reveal_strlit("engram_id");
    reveal_strlit("episode_raw");
    reveal_strlit("semantic_sim");
    reveal_strlit("recency_weight");
    reveal_strlit("emotional_charge");
    reveal_strlit("importance_score");
    reveal_strlit("identity_alignment");
    reveal_strlit("reward_score");
    reveal_strlit("reward_factor");
    reveal_strlit("resonance_score");
    assert("engram_id"@.len() == 9 && "episode_raw"@.len() == 11);
    assert("semantic_sim"@.len() == 12 && "reward_score"@.len() == 12);
    assert("semantic_sim"@[0] != "reward_score"@[0]);
    assert("reward_factor"@.len() == 13 && "recency_weight"@.len() == 14);
    assert("resonance_score"@.len() == 15 && "identity_alignment"@.len() == 18);
    assert("emotional_charge"@.len() == 16 && "importance_score"@.len() == 16);
    assert("emotional_charge"@[0] != "importance_score"@[0]);
    assert forall|i: int| 0 <= i < LOGGED_FEATURES implies #[trigger] logged_number(
        r.data_view(),
        i,
    ) == result_number(r, i) by {
        assert(result_double(r, i).finite());
        assert(field(r.data_view(), feature_view(i)) == Some(double_view(result_double(r, i))));
    }
    assert(logged_row(r.data_view(), position).0 =~= result_row(r, position).0);
}

/// The candidates that one recall showed.
#[derive(Debug)]
pub struct LoggedRecall {
    pub recall_id: u64,
    pub rows: Vec<FeatureRow>,
}

/// What a feedback log holds.
#[derive(Debug)]
pub struct Feedback {
    /// The recalls, in the order in which they first occur.
    pub recalls: Vec<LoggedRecall>,
    /// The latest reward of each recall.
    pub rewards: Vec<(u64, RewardSign)>,
}

/// The candidates of recalls by value.
pub open spec fn recalls_view(recalls: Seq<LoggedRecall>) -> Seq<
    (u64, Seq<(Seq<JsonNumber>, usize)>),
> {
    recalls.map_values(|r: LoggedRecall| (r.recall_id, rows_view(r.rows@)))
}

/// Rows by value.
pub open spec fn rows_view(rows: Seq<FeatureRow>) -> Seq<(Seq<JsonNumber>, usize)> {
    rows.map_values(|r: FeatureRow| row_view(r))
}

/// The rows of the results of a logged recall.
pub open spec fn logged_rows(results: Seq<JsonView>) -> Seq<(Seq<JsonNumber>, usize)> {
    Seq::new(results.len(), |i: int| logged_row(results[i], i as usize))
}

/// The place of a recall.
pub open spec fn recall_place(
    recalls: Seq<(u64, Seq<(Seq<JsonNumber>, usize)>)>,
    id: u64,
) -> Option<int>
    decreases recalls.len(),
{
    if recalls.len() == 0 {
        None
    } else if recalls.last().0 == id {
        Some(recalls.len() - 1)
    } else {
        recall_place(recalls.drop_last(), id)
    }
}

/// The recalls after more rows of one of them.
pub open spec fn with_rows(
    recalls: Seq<(u64, Seq<(Seq<JsonNumber>, usize)>)>,
    id: u64,
    rows: Seq<(Seq<JsonNumber>, usize)>,
) -> Seq<(u64, Seq<(Seq<JsonNumber>, usize)>)> {
    match recall_place(recalls, id) {
        Some(k) => recalls.update(k, (id, recalls[k].1 + rows)),
        None => recalls.push((id, rows)),
    }
}

/// The sign of the latest reward of a recall.
pub open spec fn latest_sign(rewards: Seq<(u64, RewardSign)>, id: u64) -> Option<RewardSign>
    decreases rewards.len(),
{
    if rewards.len() == 0 {
        None
    } else if rewards.last().0 == id {
        Some(rewards.last().1)
    } else {
        latest_sign(rewards.drop_last(), id)
    }
}

/// A feedback log by value.
pub struct FeedbackView {
    pub recalls: Seq<(u64, Seq<(Seq<JsonNumber>, usize)>)>,
    pub rewards: Seq<(u64, RewardSign)>,
}

/// The log after one more entry: a recall adds its rows, a reward its sign, and
/// anything else nothing.
pub open spec fn noted(log: FeedbackView, entry: JsonView) -> FeedbackView {
    let kind = match field(entry, "kind"@) {
        Some(k) => text_of(k),
        None => None,
    };
    let id = match field(entry, "recall_id"@) {
        Some(v) => u64_of(v),
        None => None,
    };
    if kind == Some("recall"@) {
        match id {
            Some(id) => FeedbackView {
                recalls: with_rows(
                    log.recalls,
                    id,
                    match field(entry, "results"@) {
                        Some(JsonView::Array(results)) => logged_rows(results),
                        _ => Seq::empty(),
                    },
                ),
                ..log
            },
            None => log,
        }
    } else if kind == Some("reward"@) {
        match (id, field(entry, "reward"@)) {
            (Some(id), Some(JsonView::Number(n))) => FeedbackView {
                rewards: log.rewards.push((id, sign_of(n))),
                ..log
            },
            _ => log,
        }
    } else {
        log
    }
}

/// What the lines of a log hold; lines that are no JSON are passed over.
pub open spec fn logged(lines: Seq<Seq<char>>) -> FeedbackView
    decreases lines.len(),
{
    if lines.len() == 0 {
        FeedbackView { recalls: Seq::empty(), rewards: Seq::empty() }
    } else {
        let before = logged(lines.drop_last());
        match written(lines.last()) {
            Ok(entry) => noted(before, entry),
            Err(_) => before,
        }
    }
}

/// The entry of a recall in the log.
pub open spec fn recall_entry_view(
    recall_id: u64,
    query: Seq<char>,
    results: Seq<JsonView>,
) -> JsonView {
    JsonView::Object(
        no_fields().push(("kind"@, JsonView::Text("recall"@))).push(
            ("recall_id"@, JsonView::Number(JsonNumber::Unsigned(recall_id))),
        ).push(("query"@, JsonView::Text(query))).push(("results"@, JsonView::Array(results))),
    )
}

/// The entry of a recall in the log.
pub fn recall_entry(recall_id: u64, query: &str, results: Vec<Json>) -> (r: Json)
    ensures
        r@ == recall_entry_view(recall_id, query@, items_view(results@)),
{
    ObjectBuilder::new().with("kind", Json::text("recall")).with(
        "recall_id",
        Json::number(recall_id),
    ).with("query", Json::text(query)).with("results", list(results)).done()
}

/// The entry of a reward in the log.
pub open spec fn reward_entry_view(recall_id: u64, reward: Double) -> JsonView {
    JsonView::Object(
        no_fields().push(("kind"@, JsonView::Text("reward"@))).push(
            ("recall_id"@, JsonView::Number(JsonNumber::Unsigned(recall_id))),
        ).push(("reward"@, double_view(reward))),
    )
}

/// The entry of a reward in the log.
pub fn reward_entry(recall_id: u64, reward: Double) -> (r: Json)
    ensures
        r@ == reward_entry_view(recall_id, reward),
{
    ObjectBuilder::new().with("kind", Json::text("reward")).with(
        "recall_id",
        Json::number(recall_id),
    ).with("reward", double_data(reward)).done()
}

/// What is logged of a recall is read back: its candidates under its id.
pub proof fn logged_recalls_read_back(
    log: FeedbackView,
    recall_id: u64,
    query: Seq<char>,
    results: Seq<JsonView>,
)
    ensures
        noted(log, recall_entry_view(recall_id, query, results)) == (FeedbackView {
            recalls: with_rows(log.recalls, recall_id, logged_rows(results)),
            rewards: log.rewards,
        }),
{
    broadcast use lemma_lookup_push;

    reveal_strlit("kind");
    reveal_strlit("recall_id");
    reveal_strlit("query");
    reveal_strlit("results");
    assert("kind"@.len() == 4 && "query"@.len() == 5);
    assert("recall_id"@.len() == 9 && "results"@.len() == 7);
    let entry = recall_entry_view(recall_id, query, results);
    assert(field(entry, "kind"@) == Some(JsonView::Text("recall"@)));
    assert(field(entry, "recall_id"@) == Some(
        JsonView::Number(JsonNumber::Unsigned(recall_id)),
    ));
    assert(field(entry, "results"@) == Some(JsonView::Array(results)));
}

/// What is logged of a reward is read back: a finite reward becomes the latest
/// of its recall.
pub proof fn logged_rewards_read_back(log: FeedbackView, recall_id: u64, reward: Double)
    requires
        reward.finite(),
    ensures
        noted(log, reward_entry_view(recall_id, reward)).recalls == log.recalls,
        latest_sign(noted(log, reward_entry_view(recall_id, reward)).rewards, recall_id) == Some(
            sign_of(JsonNumber::Float(reward)),
        ),
        forall|id: u64|
            id != recall_id ==> #[trigger] latest_sign(
                noted(log, reward_entry_view(recall_id, reward)).rewards,
                id,
            ) == latest_sign(log.rewards, id),
{
    broadcast use lemma_lookup_push;

    reveal_strlit("kind");
    reveal_strlit("recall_id");
    reveal_strlit("reward");
    reveal_strlit("recall");
    assert("kind"@.len() == 4 && "recall_id"@.len() == 9 && "reward"@.len() == 6);
    let entry = reward_entry_view(recall_id, reward);
    assert(field(entry, "kind"@) == Some(JsonView::Text("reward"@)));
    assert("recall"@[2] != "reward"@[2]);
    assert(field(entry, "recall_id"@) == Some(
        JsonView::Number(JsonNumber::Unsigned(recall_id)),
    ));
    assert(field(entry, "reward"@) == Some(double_view(reward)));
    let now = noted(log, entry).rewards;
    assert(now == log.rewards.push((recall_id, sign_of(JsonNumber::Float(reward)))));
    assert(now.drop_last() =~= log.rewards);
}

/// The places of the rows of recalls whose latest reward has the sign.
pub open spec fn rows_with_sign(log: FeedbackView, sign: RewardSign, upto: int) -> Seq<
    (usize, usize),
>
    decreases upto,
{
    if upto <= 0 {
        Seq::empty()
    } else {
        let before = rows_with_sign(log, sign, upto - 1);
        if latest_sign(log.rewards, log.recalls[upto - 1].0) == Some(sign) {
            before + Seq::new(
                log.recalls[upto - 1].1.len(),
                |i: int| ((upto - 1) as usize, i as usize),
            )
        } else {
            before
        }
    }
}

/// How many recalls have a latest reward of the sign.
pub open spec fn recalls_with_sign(log: FeedbackView, sign: RewardSign, upto: int) -> nat
    decreases upto,
{
    if upto <= 0 {
        0
    } else {
        recalls_with_sign(log, sign, upto - 1) + if latest_sign(
            log.rewards,
            log.recalls[upto - 1].0,
        ) == Some(sign) {
            1nat
        } else {
            0nat
        }
    }
}

impl Feedback {
    pub open spec fn view(&self) -> FeedbackView {
        FeedbackView { recalls: recalls_view(self.recalls@), rewards: self.rewards@ }
    }

    /// An empty log.
    pub fn new() -> (r: Feedback)
        ensures
            r@ == (FeedbackView { recalls: Seq::empty(), rewards: Seq::empty() }),
    {
        let r = Feedback { recalls: Vec::new(), rewards: Vec::new() };
        assert(recalls_view(r.recalls@) =~= Seq::empty());
        assert(r.rewards@ =~= Seq::empty());
        r
    }

    /// Takes note of one entry of the log.
    pub fn note(&mut self, entry: &Json)
        ensures
            final(self)@ == noted(old(self)@, entry@),
    {
        let kind = match entry.get("kind") {
            Some(k) => k.as_text(),
            None => None,
        };
        let kind = match kind {
            Some(k) => k,
            None => {
                return;
            },
        };
        let id: Option<u64> = match entry.get("recall_id") {
            Some(v) => v.as_u64(),
            None => None,
        };
        if same(kind, "recall") {
            let id: u64 = match id {
                Some(id) => id,
                None => {
                    return;
                },
            };
            let mut rows: Vec<FeatureRow> = Vec::new();
            let ghost mut wanted: Seq<(Seq<JsonNumber>, usize)> = Seq::empty();
            assert(rows_view(rows@) =~= wanted);
            if let Some(results) = entry.get("results") {
                if let Some(results) = results.as_array() {
                    let ghost all = items_view(results@);
                    let mut i: usize = 0;
                    while i < results.len()
                        invariant
                            i <= results@.len(),
                            all == items_view(results@),
                            rows@.len() == i,
                            forall|j: int|
                                0 <= j < i ==> row_view(#[trigger] rows@[j]) == logged_row(
                                    all[j],
                                    j as usize,
                                ),
                        decreases results@.len() - i,
                    {
                        rows.push(features_from_log(&results[i], i));
                        i += 1;
                    }
                    proof {
                        wanted = logged_rows(all);
                    }
                    assert(rows_view(rows@) =~= wanted);
                }
            }
            self.add_rows(id, rows);
        } else if same(kind, "reward") {
            if let Some(id) = id {
                if let Some(reward) = entry.get("reward") {
                    if let Some(n) = reward.as_number() {
                        self.rewards.push((id, reward_sign(n)));
                    }
                }
            }
        }
    }

    fn add_rows(&mut self, id: u64, rows: Vec<FeatureRow>)
        ensures
            final(self)@ == (FeedbackView {
                recalls: with_rows(old(self)@.recalls, id, rows_view(rows@)),
                rewards: old(self)@.rewards,
            }),
    {
        let ghost before = recalls_view(self.recalls@);
        let ghost old_recalls = self.recalls@;
        let ghost added = rows_view(rows@);
        let mut k: usize = self.recalls.len();
        assert(before.take(k as int) =~= before);
        while k > 0 && self.recalls[k - 1].recall_id != id
            invariant
                k <= self.recalls@.len(),
                before == recalls_view(self.recalls@),
                recall_place(before, id) == recall_place(before.take(k as int), id),
            decreases k,
        {
            assert(before.take(k as int).drop_last() =~= before.take(k - 1));
            assert(before.take(k as int).last() == before[k - 1]);
            k -= 1;
        }
        if k > 0 {
            assert(before.take(k as int).last() == before[k - 1]);
            let ghost held = rows_view(self.recalls@[k - 1].rows@);
            let mut more = rows;
            let ghost old_rows = self.recalls@[k - 1].rows@;
            let ghost new_rows = more@;
            self.recalls[k - 1].rows.append(&mut more);
            proof {
                let now = recalls_view(self.recalls@);
                assert(self.recalls@[k - 1].rows@ =~= old_rows + new_rows);
                assert(rows_view(self.recalls@[k - 1].rows@) =~= held + added);
                assert(now =~= before.update(k - 1, (id, held + added)));
            }
        } else {
            self.recalls.push(LoggedRecall { recall_id: id, rows });
            assert(recalls_view(self.recalls@) =~= before.push((id, added)));
        }
    }

    /// Reads the lines of a log; lines that are no JSON are passed over.
    pub fn read(lines: &Vec<String>) -> (r: Feedback)
        ensures
            r@ == logged(views(lines@)),
    {
        let ghost all = views(lines@);
        let mut log = Feedback::new();
        let mut i: usize = 0;
        while i < lines.len()
            invariant
                i <= lines@.len(),
                all == views(lines@),
                log@ == logged(all.take(i as int)),
            decreases lines@.len() - i,
        {
            assert(all.take(i + 1).drop_last() =~= all.take(i as int));
            assert(all.take(i + 1).last() == lines@[i as int]@);
            if let Ok(entry) = read_json(lines[i].as_str()) {
                log.note(&entry);
            }
            i += 1;
        }
        assert(all.take(i as int) =~= all);
        log
    }

    fn sign_under(&self, id: u64) -> (r: Option<RewardSign>)
        ensures
            r == latest_sign(self.rewards@, id),
    {
        let mut i: usize = self.rewards.len();
        assert(self.rewards@.take(i as int) =~= self.rewards@);
        while i > 0
            invariant
                i <= self.rewards@.len(),
                latest_sign(self.rewards@, id) == latest_sign(self.rewards@.take(i as int), id),
            decreases i,
        {
            assert(self.rewards@.take(i as int).drop_last() =~= self.rewards@.take(i - 1));
            if self.rewards[i - 1].0 == id {
                return Some(self.rewards[i - 1].1);
            }
            i -= 1;
        }
        None
    }

    /// The places (recall, row) of the candidates of recalls whose latest reward
    /// has the sign, and the number of those recalls.
    pub fn with_sign(&self, sign: RewardSign) -> (r: (Vec<(usize, usize)>, u64))
        ensures
            r.0@ == rows_with_sign(self@, sign, self.recalls@.len() as int),
            r.1 == recalls_with_sign(self@, sign, self.recalls@.len() as int),
            forall|k: int|
                0 <= k < r.0@.len() ==> (#[trigger] r.0@[k]).0 < self.recalls@.len() && r.0@[k].1
                    < self.recalls@[r.0@[k].0 as int].rows@.len(),
    {
        let mut out: Vec<(usize, usize)> = Vec::new();
        let mut count: u64 = 0;
        let mut i: usize = 0;
        while i < self.recalls.len()
            invariant
                i <= self.recalls@.len(),
                count <= i,
                out@ == rows_with_sign(self@, sign, i as int),
                count == recalls_with_sign(self@, sign, i as int),
                forall|k: int|
                    0 <= k < out@.len() ==> (#[trigger] out@[k]).0 < self.recalls@.len()
                        && out@[k].1 < self.recalls@[out@[k].0 as int].rows@.len(),
            decreases self.recalls@.len() - i,
        {
            let ghost before = out@;
            let ghost here = self@.recalls[i as int];
            assert(here == (self.recalls@[i as int].recall_id, rows_view(
                self.recalls@[i as int].rows@,
            )));
            let is_wanted = match self.sign_under(self.recalls[i].recall_id) {
                Some(s) => s == sign,
                None => false,
            };
            if is_wanted {
                count = count + 1;
                let n: usize = self.recalls[i].rows.len();
                let mut j: usize = 0;
                assert(out@ =~= before + Seq::new(0nat, |x: int| (i, x as usize)));
                while j < n
                    invariant
                        i < self.recalls@.len(),
                        n == self.recalls@[i as int].rows@.len(),
                        j <= n,
                        out@ == before + Seq::new(j as nat, |x: int| (i, x as usize)),
                        forall|k: int|
                            0 <= k < out@.len() ==> (#[trigger] out@[k]).0 < self.recalls@.len()
                                && out@[k].1 < self.recalls@[out@[k].0 as int].rows@.len(),
                    decreases n - j,
                {
                    out.push((i, j));
                    j += 1;
                    assert(out@ =~= before + Seq::new(j as nat, |x: int| (i, x as usize)));
                }
                assert(out@ =~= before + Seq::new(here.1.len(), |x: int| (i, x as usize)));
            }
            i += 1;
        }
        (out, count)
    }
}

/// The message of a log with too little feedback.
pub fn not_enough(positive: u64, negative: u64) -> (r: String)
    ensures
        r@ == "not enough feedback yet (positive recalls="@ + decimal(positive as nat)
            + ", negative recalls="@ + decimal(negative as nat) + "); need both signs"@,
{
    let p = show_u64(positive);
    let n = show_u64(negative);
    "not enough feedback yet (positive recalls=".to_owned().concat(p.as_str()).concat(
        ", negative recalls=",
    ).concat(n.as_str()).concat("); need both signs")
}

/// The most preference pairs of one training.
pub const MAX_PAIRS: usize = 200_000;

/// How many preference pairs are drawn.
pub open spec fn pair_count(positives: nat, negatives: nat) -> nat {
    if positives * negatives <= MAX_PAIRS {
        positives * negatives
    } else {
        MAX_PAIRS as nat
    }
}

/// The preference pairs: each positive with every negative, in order, up to the
/// limit.
pub fn preference_pairs(positives: usize, negatives: usize) -> (r: Vec<(usize, usize)>)
    requires
        negatives > 0,
    ensures
        r@.len() == pair_count(positives as nat, negatives as nat),
        forall|k: int|
            0 <= k < r@.len() ==> (#[trigger] r@[k]).0 == k / (negatives as int) && r@[k].1 == k % (
            negatives as int) && r@[k].0 < positives && r@[k].1 < negatives,
{
    let mut out: Vec<(usize, usize)> = Vec::new();
    let mut i: usize = 0;
    while i < positives
        invariant
            i <= positives,
            negatives > 0,
            out@.len() == i * negatives,
            out@.len() < MAX_PAIRS || i == 0,
            forall|k: int|
                0 <= k < out@.len() ==> (#[trigger] out@[k]).0 == k / (negatives as int)
                    && out@[k].1 == k % (negatives as int) && out@[k].0 < positives && out@[k].1
                    < negatives,
        decreases positives - i,
    {
        let mut j: usize = 0;
        while j < negatives
            invariant
                i < positives,
                j <= negatives,
                negatives > 0,
                out@.len() == i * negatives + j,
                out@.len() < MAX_PAIRS,
                forall|k: int|
                    0 <= k < out@.len() ==> (#[trigger] out@[k]).0 == k / (negatives as int)
                        && out@[k].1 == k % (negatives as int) && out@[k].0 < positives
                        && out@[k].1 < negatives,
            decreases negatives - j,
        {
            let ghost k = out@.len() as int;
            out.push((i, j));
            proof {
                assert(k == i * negatives + j);
                lemma_fundamental_div_mod_converse(k, negatives as int, i as int, j as int);
            }
            j += 1;
            if out.len() >= MAX_PAIRS {
                proof {
                    assert(positives * negatives >= MAX_PAIRS) by (nonlinear_arith)
                        requires
                            i * negatives + j == MAX_PAIRS,
                            j <= negatives,
                            i + 1 <= positives,
                    ;
                }
                return out;
            }
        }
        i += 1;
        proof {
            assert(i * negatives == (i - 1) * negatives + negatives) by (nonlinear_arith);
        }
    }
    out
}

/// What a training learns from: the places (recall, row) of candidates that were
/// rewarded and of candidates that were not, and the preference pairs among them.
#[derive(Debug)]
pub struct Training {
    pub positives: Vec<(usize, usize)>,
    pub negatives: Vec<(usize, usize)>,
    pub pairs: Vec<(usize, usize)>,
}

/// `t` is what a training learns from a log: all candidates of recalls with a
/// positive and with a negative reward, and each positive with every negative, in
/// order, up to the limit.
pub open spec fn is_training(log: FeedbackView, t: Training) -> bool {
    let n = log.recalls.len() as int;
    &&& t.positives@ == rows_with_sign(log, RewardSign::Positive, n)
    &&& t.negatives@ == rows_with_sign(log, RewardSign::Negative, n)
    &&& t.pairs@.len() == pair_count(t.positives@.len(), t.negatives@.len())
    &&& forall|k: int|
        0 <= k < t.pairs@.len() ==> (#[trigger] t.pairs@[k]).0 == k / (t.negatives@.len() as int)
            && t.pairs@[k].1 == k % (t.negatives@.len() as int)
}

/// The log holds candidates of both signs.
pub open spec fn has_both_signs(log: FeedbackView) -> bool {
    let n = log.recalls.len() as int;
    &&& rows_with_sign(log, RewardSign::Positive, n).len() > 0
    &&& rows_with_sign(log, RewardSign::Negative, n).len() > 0
}

/// The message of a log without candidates of both signs.
pub open spec fn not_enough_view(log: FeedbackView) -> Seq<char> {
    let n = log.recalls.len() as int;
    "not enough feedback yet (positive recalls="@ + decimal(
        recalls_with_sign(log, RewardSign::Positive, n),
    ) + ", negative recalls="@ + decimal(recalls_with_sign(log, RewardSign::Negative, n))
        + "); need both signs"@
}

impl Feedback {
    /// What a training learns from the log; an error where it does not hold
    /// candidates of both signs.
    pub fn training(&self) -> (r: Result<Training, String>)
        ensures
            match r {
                Ok(t) => has_both_signs(self@) && is_training(self@, t) && self.places(t),
                Err(message) => !has_both_signs(self@) && message@ == not_enough_view(self@),
            },
    {
        let (positives, good) = self.with_sign(RewardSign::Positive);
        let (negatives, bad) = self.with_sign(RewardSign::Negative);
        if positives.len() == 0 || negatives.len() == 0 {
            return Err(not_enough(good, bad));
        }
        let pairs = preference_pairs(positives.len(), negatives.len());
        Ok(Training { positives, negatives, pairs })
    }

    /// The places of a training are places of rows, and its pairs are places
    /// among its candidates.
    pub open spec fn places(&self, t: Training) -> bool {
        &&& forall|k: int|
            0 <= k < t.positives@.len() ==> (#[trigger] t.positives@[k]).0 < self.recalls@.len()
                && t.positives@[k].1 < self.recalls@[t.positives@[k].0 as int].rows@.len()
        &&& forall|k: int|
            0 <= k < t.negatives@.len() ==> (#[trigger] t.negatives@[k]).0 < self.recalls@.len()
                && t.negatives@[k].1 < self.recalls@[t.negatives@[k].0 as int].rows@.len()
        &&& forall|k: int|
            0 <= k < t.pairs@.len() ==> (#[trigger] t.pairs@[k]).0 < t.positives@.len()
                && t.pairs@[k].1 < t.negatives@.len()
    }
}

/// Reads the lines of a feedback log and finds what a training learns from it;
/// an error where it does not hold candidates of both signs.
pub fn train_from_log(lines: &Vec<String>) -> (r: Result<(Feedback, Training), String>)
    ensures
        match r {
            Ok((log, t)) => log@ == logged(views(lines@)) && has_both_signs(log@) && is_training(
                log@,
                t,
            ) && log.places(t),
            Err(message) => !has_both_signs(logged(views(lines@))) && message@ == not_enough_view(
                logged(views(lines@)),
            ),
        },
{
    let log = Feedback::read(lines);
    match log.training() {
        Ok(t) => Ok((log, t)),
        Err(message) => Err(message),
    }
}

/// What a finished training says: where the model is kept, what it learned from,
/// and how many samples it has seen in all.
pub open spec fn summary_view(
    path: Seq<char>,
    pairs: nat,
    positives: nat,
    negatives: nat,
    trained_samples: u64,
    alpha_env: Seq<char>,
) -> JsonView {
    JsonView::Object(
        no_fields().push(("model"@, JsonView::Text(path))).push(
            ("pairs"@, JsonView::Number(JsonNumber::Unsigned(pairs as u64))),
        ).push(
            ("positive_candidates"@, JsonView::Number(JsonNumber::Unsigned(positives as u64))),
        ).push(
            ("negative_candidates"@, JsonView::Number(JsonNumber::Unsigned(negatives as u64))),
        ).push(
            ("trained_samples"@, JsonView::Number(JsonNumber::Unsigned(trained_samples))),
        ).push(("alpha_env"@, JsonView::Text(alpha_env))),
    )
}

/// What a finished training says.
pub fn train_summary(path: &str, model: &RerankerModel, training: &Training, alpha_env: &str) -> (r:
    Json)
    ensures
        r@ == summary_view(
            path@,
            training.pairs@.len(),
            training.positives@.len(),
            training.negatives@.len(),
            model.trained_samples,
            alpha_env@,
        ),
{
    ObjectBuilder::new().with("model", Json::text(path)).with(
        "pairs",
        Json::number(training.pairs.len() as u64),
    ).with("positive_candidates", Json::number(training.positives.len() as u64)).with(
        "negative_candidates",
        Json::number(training.negatives.len() as u64),
    ).with("trained_samples", Json::number(model.trained_samples)).with(
        "alpha_env",
        Json::text(alpha_env),
    ).done()
}

/// Ends a training: the model takes the weights and the bias that it led to, its
/// samples grow by every pass over the pairs, and the summary says so.
pub fn finish_training(
    model: &mut RerankerModel,
    training: &Training,
    weights: Vec<Double>,
    bias: Double,
    path: &str,
    alpha_env: &str,
) -> (r: Json)
    ensures
        final(model).trained_samples == saturated(
            old(model).trained_samples + EPOCHS * training.pairs@.len(),
        ),
        final(model).version == old(model).version,
        final(model).reward_events == old(model).reward_events,
        final(model).weights == weights,
        final(model).bias == bias,
        r@ == summary_view(
            path@,
            training.pairs@.len(),
            training.positives@.len(),
            training.negatives@.len(),
            saturated(old(model).trained_samples + EPOCHS * training.pairs@.len()),
            alpha_env@,
        ),
{
    model.record_training(training.pairs.len(), weights, bias);
    train_summary(path, model, training, alpha_env)
}

/// The path of the feedback log.
pub fn feedback_log_path(env: &Env) -> (r: String)
    ensures
        r@ == or_else(non_empty(env.value("MNEMOS_FEEDBACK_LOG"@)), "./data/helix/feedback.jsonl"@),
{
    env.get_non_empty_or("MNEMOS_FEEDBACK_LOG", "./data/helix/feedback.jsonl")
}

/// The path of the model.
pub fn reranker_model_path(env: &Env) -> (r: String)
    ensures
        r@ == or_else(
            non_empty(env.value("MNEMOS_RERANKER_MODEL"@)),
            "./data/helix/reranker.json"@,
        ),
{
    env.get_non_empty_or("MNEMOS_RERANKER_MODEL", "./data/helix/reranker.json")
}

/// The rewards that a model counts; 0 where it counts none.
pub open spec fn events_in(model: JsonView) -> u64 {
    match field(model, "reward_events"@) {
        Some(v) => match u64_of(v) {
            Some(n) => n,
            None => 0,
        },
        None => 0,
    }
}

/// The rewards that a model counts; 0 without a model.
pub fn reward_events_in(model: Option<&Json>) -> (r: u64)
    ensures
        r == match model {
            Some(m) => events_in(m@),
            None => 0,
        },
{
    match model {
        Some(m) => match m.get("reward_events") {
            Some(v) => match v.as_u64() {
                Some(n) => n,
                None => 0,
            },
            None => 0,
        },
        None => 0,
    }
}

/// The path of the shipped model.
pub fn reranker_seed_path(env: &Env) -> (r: String)
    ensures
        r@ == or_else(
            non_empty(env.value("MNEMOS_RERANKER_SEED"@)),
            "./models/reranker-seed.json"@,
        ),
{
    env.get_non_empty_or("MNEMOS_RERANKER_SEED", "./models/reranker-seed.json")
}

/// Whether every reward fine-tunes the model: always, unless
/// `MNEMOS_RERANKER_ONLINE` says otherwise.
pub fn online_finetuning(env: &Env) -> (r: bool)
    ensures
        r == match env.value("MNEMOS_RERANKER_ONLINE"@) {
            Some(v) => truthy(v),
            None => true,
        },
{
    env.parse_bool_env("MNEMOS_RERANKER_ONLINE", true)
}

/// The state of learning: the model, the rewards, the share of the model, and
/// the rewards that it takes for the full share. `shown_alpha` is the share as it
/// is shown.
pub fn learning_summary(
    model: Option<&Json>,
    mode: &str,
    alpha: Double,
    shown_alpha: Double,
    min_pairs: JsonNumber,
    online: bool,
) -> (r: Json)
    ensures
        r@ == JsonView::Object(
            no_fields().push(
                (
                    "model"@,
                    JsonView::Text(
                        if model is Some {
                            "local"@
                        } else {
                            "seed"@
                        },
                    ),
                ),
            ).push(
                (
                    "reward_events"@,
                    JsonView::Number(
                        JsonNumber::Unsigned(
                            match model {
                                Some(m) => events_in(m@),
                                None => 0,
                            },
                        ),
                    ),
                ),
            ).push(("alpha"@, JsonView::Number(JsonNumber::Float(shown_alpha)))).push(
                ("alpha_mode"@, JsonView::Text(mode@)),
            ).push(
                ("min_pairs_for_full_alpha"@, JsonView::Number(min_pairs)),
            ).push(("online_finetuning"@, JsonView::Bool(online))).push(
                (
                    "state"@,
                    JsonView::Text(
                        if alpha.le(Double { bits: 0 }) {
                            "shadow"@
                        } else {
                            "active"@
                        },
                    ),
                ),
            ),
        ),
{
    let state = if model.is_some() {
        "local"
    } else {
        "seed"
    };
    let active = if alpha.at_most(Double { bits: 0 }) {
        "shadow"
    } else {
        "active"
    };
    let events: u64 = reward_events_in(model);
    ObjectBuilder::new().with("model", Json::text(state)).with(
        "reward_events",
        Json::number(events),
    ).with("alpha", Json::Number(JsonNumber::Float(shown_alpha))).with(
        "alpha_mode",
        Json::text(mode),
    ).with("min_pairs_for_full_alpha", Json::Number(min_pairs)).with(
        "online_finetuning",
        Json::Bool(online),
    ).with("state", Json::text(active)).done()
}

/// A reward speaks for a recall exactly where it is above 0.2, and against it where
/// it is below -0.2, however its number is written.
pub proof fn rewards_speak_by_their_size(d: Double, u: u64, i: i64)
    ensures
        sign_of(JsonNumber::Float(d)) is Positive <==> (Double { bits: 0x3FC9_9999_9999_999A }).lt(
            d,
        ),
        sign_of(JsonNumber::Float(d)) is Negative <==> d.lt(Double { bits: 0xBFC9_9999_9999_999A }),
        sign_of(JsonNumber::Unsigned(u)) is Positive <==> u > 0,
        !(sign_of(JsonNumber::Unsigned(u)) is Negative),
        sign_of(JsonNumber::Signed(i)) is Positive <==> i > 0,
        sign_of(JsonNumber::Signed(i)) is Negative <==> i < 0,
{
}

/// The latest reward of a recall is what counts, and only for that recall.
pub proof fn the_latest_reward_counts(
    rewards: Seq<(u64, RewardSign)>,
    id: u64,
    sign: RewardSign,
    other: u64,
)
    ensures
        latest_sign(Seq::<(u64, RewardSign)>::empty(), id) is None,
        latest_sign(rewards.push((id, sign)), id) == Some(sign),
        other != id ==> latest_sign(rewards.push((id, sign)), other) == latest_sign(rewards, other),
{
    assert(rewards.push((id, sign)).drop_last() =~= rewards);
}

/// A training takes exactly the candidates of the recalls whose latest reward has
/// the sign.
pub proof fn rewarded_recalls_give_all_their_rows(
    log: FeedbackView,
    sign: RewardSign,
    upto: int,
    recall: usize,
    row: usize,
)
    requires
        0 <= upto <= log.recalls.len() <= usize::MAX,
        forall|k: int| 0 <= k < log.recalls.len() ==> (#[trigger] log.recalls[k]).1.len() <= usize::MAX,
    ensures
        rows_with_sign(log, sign, upto).contains((recall, row)) <==> recall < upto && latest_sign(
            log.rewards,
            log.recalls[recall as int].0,
        ) == Some(sign) && row < log.recalls[recall as int].1.len(),
    decreases upto,
{
    if upto > 0 {
        rewarded_recalls_give_all_their_rows(log, sign, upto - 1, recall, row);
        let before = rows_with_sign(log, sign, upto - 1);
        let all = rows_with_sign(log, sign, upto);
        let last = upto - 1;
        let n = log.recalls[last].1.len();
        let added = Seq::new(n, |i: int| (last as usize, i as usize));
        if latest_sign(log.rewards, log.recalls[last].0) == Some(sign) {
            if before.contains((recall, row)) {
                let k = choose|k: int| 0 <= k < before.len() && before[k] == (recall, row);
                assert(all[k] == (recall, row));
            }
            if recall == last && row < n {
                assert(added[row as int] == (recall, row));
                assert(all[before.len() + row] == (recall, row));
            }
            if all.contains((recall, row)) {
                let k = choose|k: int| 0 <= k < all.len() && all[k] == (recall, row);
                if k < before.len() {
                    assert(before[k] == (recall, row));
                } else {
                    assert(added[k - before.len()] == (recall, row));
                }
            }
        }
    }
}

/// A training compares every rewarded candidate with every one that was not, unless
/// there are more than two hundred thousand pairs.
pub proof fn every_pair_is_compared(log: FeedbackView, t: Training, i: usize, j: usize)
    requires
        is_training(log, t),
        i < t.positives@.len(),
        j < t.negatives@.len(),
        t.positives@.len() * t.negatives@.len() <= 200_000,
    ensures
        t.pairs@.contains((i, j)),
        t.pairs@.len() == t.positives@.len() * t.negatives@.len(),
{
    let n = t.negatives@.len() as int;
    let p = t.positives@.len() as int;
    let k = i * n + j;
    assert(0 <= k < p * n) by (nonlinear_arith)
        requires
            0 <= i < p,
            0 <= j < n,
            k == i * n + j,
    ;
    lemma_fundamental_div_mod_converse(k, n, i as int, j as int);
    assert(t.pairs@[k] == (i, j));
}

/// No more than two hundred thousand pairs are compared.
pub proof fn pairs_are_bounded(positives: nat, negatives: nat)
    ensures
        pair_count(positives, negatives) <= 200_000,
        pair_count(positives, negatives) <= positives * negatives,
        pair_count(positives, negatives) == positives * negatives || pair_count(
            positives,
            negatives,
        ) == 200_000,
{
}

/// A log can be learned from where it holds a candidate of a recall whose latest
/// reward is positive and one of a recall whose latest reward is negative.
pub proof fn learning_needs_both_signs(
    log: FeedbackView,
    good: int,
    bad: int,
)
    requires
        0 <= good < log.recalls.len(),
        0 <= bad < log.recalls.len(),
        log.recalls.len() <= usize::MAX,
        forall|k: int| 0 <= k < log.recalls.len() ==> (#[trigger] log.recalls[k]).1.len() <= usize::MAX,
        latest_sign(log.rewards, log.recalls[good].0) == Some(RewardSign::Positive),
        latest_sign(log.rewards, log.recalls[bad].0) == Some(RewardSign::Negative),
        log.recalls[good].1.len() > 0,
        log.recalls[bad].1.len() > 0,
    ensures
        has_both_signs(log),
{
    let n = log.recalls.len() as int;
    rewarded_recalls_give_all_their_rows(log, RewardSign::Positive, n, good as usize, 0);
    rewarded_recalls_give_all_their_rows(log, RewardSign::Negative, n, bad as usize, 0);
}

/// A training passes twenty times over its pairs, and every pass counts.
pub proof fn every_pass_counts(before: u64, pairs: nat)
    ensures
        before + 20 * pairs <= u64::MAX ==> saturated((before + EPOCHS * pairs) as int) == before
            + 20 * pairs,
        before + 20 * pairs > u64::MAX ==> saturated((before + EPOCHS * pairs) as int) == u64::MAX,
{
}

/// The features of a result are its own numbers in the order of their names; of its
/// charge only the strength counts.
pub proof fn features_are_the_results_own(r: ResonanceResult, position: usize)
    ensures
        result_row(r, position).1 == position,
        result_row(r, position).0 == seq![
            JsonNumber::Float(r.semantic_sim),
            JsonNumber::Float(r.recency_weight),
            JsonNumber::Float(
                Double {
                    bits: if r.emotional_charge.bits < 0x8000_0000_0000_0000 {
                        r.emotional_charge.bits
                    } else {
                        (r.emotional_charge.bits - 0x8000_0000_0000_0000) as u64
                    },
                },
            ),
            JsonNumber::Float(r.importance_score),
            JsonNumber::Float(r.identity_alignment),
            JsonNumber::Float(r.reward_score),
            JsonNumber::Float(r.reward_factor),
            JsonNumber::Float(r.resonance_score),
        ],
{
    assert(result_row(r, position).0 =~= seq![
        JsonNumber::Float(r.semantic_sim),
        JsonNumber::Float(r.recency_weight),
        JsonNumber::Float(
            Double {
                bits: if r.emotional_charge.bits < 0x8000_0000_0000_0000 {
                    r.emotional_charge.bits
                } else {
                    (r.emotional_charge.bits - 0x8000_0000_0000_0000) as u64
                },
            },
        ),
        JsonNumber::Float(r.importance_score),
        JsonNumber::Float(r.identity_alignment),
        JsonNumber::Float(r.reward_score),
        JsonNumber::Float(r.reward_factor),
        JsonNumber::Float(r.resonance_score),
    ]);
}

/// The rows of a logged recall keep the order in which its results were shown.
pub proof fn logged_rows_keep_their_place(results: Seq<JsonView>, i: int)
    requires
        0 <= i < results.len() <= usize::MAX,
    ensures
        logged_rows(results).len() == results.len(),
        logged_rows(results)[i].1 == i,
        logged_rows(results)[i].0.len() == 8,
{
}

/// More rows of a recall join those it has; other recalls stay as they are.
pub proof fn rows_join_their_recall(
    recalls: Seq<(u64, Seq<(Seq<JsonNumber>, usize)>)>,
    id: u64,
    rows: Seq<(Seq<JsonNumber>, usize)>,
    k: int,
)
    requires
        0 <= k < recalls.len(),
        forall|a: int, b: int|
            0 <= a < b < recalls.len() ==> (#[trigger] recalls[a]).0 != (#[trigger] recalls[b]).0,
    ensures
        with_rows(recalls, id, rows)[k] == if recalls[k].0 == id {
            (id, recalls[k].1 + rows)
        } else {
            recalls[k]
        },
        (forall|j: int| 0 <= j < recalls.len() ==> (#[trigger] recalls[j]).0 != id) ==> with_rows(
            recalls,
            id,
            rows,
        ) == recalls.push((id, rows)),
{
    lemma_recall_place(recalls, id);
    if let Some(p) = recall_place(recalls, id) {
        if p < k {
            assert(recalls[p].0 != recalls[k].0);
        } else if k < p {
            assert(recalls[k].0 != recalls[p].0);
        }
    }
}

proof fn lemma_recall_place(recalls: Seq<(u64, Seq<(Seq<JsonNumber>, usize)>)>, id: u64)
    ensures
        match recall_place(recalls, id) {
            Some(k) => 0 <= k < recalls.len() && recalls[k].0 == id,
            None => forall|k: int| 0 <= k < recalls.len() ==> (#[trigger] recalls[k]).0 != id,
        },
    decreases recalls.len(),
{
    if recalls.len() > 0 && recalls.last().0 != id {
        let fewer = recalls.drop_last();
        lemma_recall_place(fewer, id);
        if recall_place(recalls, id) is None {
            assert forall|k: int| 0 <= k < recalls.len() implies (#[trigger] recalls[k]).0 != id by {
                if k < fewer.len() {
                    assert(fewer[k].0 != id);
                }
            }
        }
    }
}

/// A line of the log that is no JSON changes nothing, and every other line is taken
/// note of, in order.
pub proof fn every_line_is_noted(lines: Seq<Seq<char>>, line: Seq<char>)
    ensures
        written(line) is Err ==> logged(lines.push(line)) == logged(lines),
        written(line) matches Ok(entry) ==> logged(lines.push(line)) == noted(
            logged(lines),
            entry,
        ),
{
    assert(lines.push(line).drop_last() =~= lines);
}

/// A training says how many pairs and candidates it learned from, and how many
/// samples the model has seen.
pub proof fn summaries_say_what_was_learned(
    path: Seq<char>,
    pairs: nat,
    positives: nat,
    negatives: nat,
    trained_samples: u64,
    alpha_env: Seq<char>,
)
    ensures
        ({
            let s = summary_view(path, pairs, positives, negatives, trained_samples, alpha_env);
            &&& field(s, "model"@) == Some(JsonView::Text(path))
            &&& field(s, "pairs"@) == Some(JsonView::Number(JsonNumber::Unsigned(pairs as u64)))
            &&& field(s, "positive_candidates"@) == Some(
                JsonView::Number(JsonNumber::Unsigned(positives as u64)),
            )
            &&& field(s, "negative_candidates"@) == Some(
                JsonView::Number(JsonNumber::Unsigned(negatives as u64)),
            )
            &&& field(s, "trained_samples"@) == Some(
                JsonView::Number(JsonNumber::Unsigned(trained_samples)),
            )
            &&& field(s, "alpha_env"@) == Some(JsonView::Text(alpha_env))
        }),
{
    broadcast use lemma_lookup_push;

    reveal_strlit("model");
    reveal_strlit("pairs");
    reveal_strlit("positive_candidates");
    reveal_strlit("negative_candidates");
    reveal_strlit("trained_samples");
    reveal_strlit("alpha_env");
    assert("model"@.len() == 5 && "pairs"@.len() == 5);
    assert("model"@[0] != "pairs"@[0]);
    assert("positive_candidates"@.len() == 19 && "negative_candidates"@.len() == 19);
    assert("positive_candidates"@[0] != "negative_candidates"@[0]);
    assert("trained_samples"@.len() == 15);
    assert("alpha_env"@.len() == 9);
}

/// A log without a candidate under a positive reward, or without one under a
/// negative reward, cannot be learned from.
pub proof fn one_sign_teaches_nothing(log: FeedbackView)
    requires
        log.recalls.len() <= usize::MAX,
        forall|k: int| 0 <= k < log.recalls.len() ==> (#[trigger] log.recalls[k]).1.len() <= usize::MAX,
        has_both_signs(log),
    ensures
        exists|k: int|
            0 <= k < log.recalls.len() && (#[trigger] log.recalls[k]).1.len() > 0 && latest_sign(
                log.rewards,
                log.recalls[k].0,
            ) == Some(RewardSign::Positive),
        exists|k: int|
            0 <= k < log.recalls.len() && (#[trigger] log.recalls[k]).1.len() > 0 && latest_sign(
                log.rewards,
                log.recalls[k].0,
            ) == Some(RewardSign::Negative),
{
    let n = log.recalls.len() as int;
    let good = rows_with_sign(log, RewardSign::Positive, n);
    let bad = rows_with_sign(log, RewardSign::Negative, n);
    assert(good.contains(good[0]));
    assert(bad.contains(bad[0]));
    rewarded_recalls_give_all_their_rows(log, RewardSign::Positive, n, good[0].0, good[0].1);
    rewarded_recalls_give_all_their_rows(log, RewardSign::Negative, n, bad[0].0, bad[0].1);
    assert(log.recalls[good[0].0 as int].1.len() > 0);
    assert(log.recalls[bad[0].0 as int].1.len() > 0);
}

/// What a training takes for good are the candidates of the recalls that were last
/// rewarded, and for bad those of the recalls that were last punished.
pub proof fn trainings_take_both_sides(log: FeedbackView, t: Training, recall: usize, row: usize)
    requires
        log.recalls.len() <= usize::MAX,
        forall|k: int| 0 <= k < log.recalls.len() ==> (#[trigger] log.recalls[k]).1.len() <= usize::MAX,
        is_training(log, t),
    ensures
        t.positives@.contains((recall, row)) <==> recall < log.recalls.len() && latest_sign(
            log.rewards,
            log.recalls[recall as int].0,
        ) == Some(RewardSign::Positive) && row < log.recalls[recall as int].1.len(),
        t.negatives@.contains((recall, row)) <==> recall < log.recalls.len() && latest_sign(
            log.rewards,
            log.recalls[recall as int].0,
        ) == Some(RewardSign::Negative) && row < log.recalls[recall as int].1.len(),
{
    let n = log.recalls.len() as int;
    rewarded_recalls_give_all_their_rows(log, RewardSign::Positive, n, recall, row);
    rewarded_recalls_give_all_their_rows(log, RewardSign::Negative, n, recall, row);
}

/// The recalls of a sign are counted as many as have it for their latest reward.
pub proof fn recalls_are_counted_by_their_latest_reward(
    log: FeedbackView,
    sign: RewardSign,
    upto: int,
)
    requires
        0 <= upto <= log.recalls.len(),
    ensures
        recalls_with_sign(log, sign, upto) == log.recalls.take(upto).filter(
            |r: (u64, Seq<(Seq<JsonNumber>, usize)>)| latest_sign(log.rewards, r.0) == Some(sign),
        ).len(),
    decreases upto,
{
    reveal(Seq::filter);
    if upto > 0 {
        recalls_are_counted_by_their_latest_reward(log, sign, upto - 1);
        assert(log.recalls.take(upto).drop_last() =~= log.recalls.take(upto - 1));
    }
}

} // verus!
