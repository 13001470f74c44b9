//! Domain types.

use crate::double::Double;
use crate::json::{
    double_data, double_view, field, items_view, lemma_lookup_push, no_fields, Json, JsonNumber,
    JsonView, ObjectBuilder,
};
use vstd::prelude::*;

verus! {

/// Unique id of an engram node.
pub type EngramId = u64;

/// Unique id of a concept node.
pub type ConceptId = u64;

/// Unique id of an identity node.
pub type IdentityId = u64;

/// Memory kind.
#[derive(Clone, Copy, Debug, PartialEq, Eq, Structural)]
pub enum EngramType {
    Episodic,
    Semantic,
    Procedural,
}

impl Default for EngramType {
    fn default() -> (r: EngramType)
        ensures
            r == EngramType::Episodic,
    {
        EngramType::Episodic
    }
}

impl EngramType {
    /// The name under which the kind is stored.
    pub open spec fn name(self) -> Seq<char> {
        match self {
            EngramType::Episodic => "episodic"@,
            EngramType::Semantic => "semantic"@,
            EngramType::Procedural => "procedural"@,
        }
    }

    /// The name under which the kind is stored.
    pub fn as_str(&self) -> (r: &'static str)
        ensures
            r@ == self.name(),
    {
        match self {
            EngramType::Episodic => "episodic",
            EngramType::Semantic => "semantic",
            EngramType::Procedural => "procedural",
        }
    }
}

/// Core memory unit. The embedding lives on the node.
#[derive(Debug)]
pub struct Engram {
    pub id: Option<EngramId>,
    pub episode_raw: String,
    /// From -1 (very negative) to 1 (very positive).
    pub emotional_charge: Double,
    /// From 0 to 1.
    pub importance_score: Double,
    /// Ebbinghaus decay parameter.
    pub decay_rate: Double,
    pub activation_count: i64,
    /// RFC 3339.
    pub timestamp: String,
    pub engram_type: EngramType,
    /// 0 raw, 1 compressed, 2 crystallized.
    pub compression_level: i64,
    pub contradiction_flag: bool,
    /// The bit patterns of the single-precision components.
    pub embedding: Option<Vec<u32>>,
}

/// Knowledge concept linked from engrams.
#[derive(Debug)]
pub struct Concept {
    pub id: Option<ConceptId>,
    pub name: String,
    pub confidence: Double,
    /// RFC 3339.
    pub formation_date: String,
    pub source_count: i64,
    /// The bit patterns of the single-precision components of the centroid.
    pub embedding: Option<Vec<u32>>,
}

/// Personality trait fed by concepts.
#[derive(Debug)]
pub struct Identity {
    pub id: Option<IdentityId>,
    pub trait_name: String,
    pub value: Double,
    /// Resistance to change, from 0 to 1.
    pub stability: Double,
    /// RFC 3339.
    pub last_updated: String,
}

/// Concept extracted from a memory.
#[derive(Debug)]
pub struct ExtractedConcept {
    pub name: String,
    pub confidence: Double,
}

/// Row of a vector search, before scoring.
#[derive(Debug)]
pub struct EngramCandidate {
    pub id: EngramId,
    pub episode_raw: String,
    pub emotional_charge: Double,
    pub importance_score: Double,
    pub decay_rate: Double,
    pub activation_count: i64,
    pub timestamp: String,
    pub engram_type: String,
    pub compression_level: i64,
    pub contradiction_flag: bool,
    pub distance: Double,
}

/// A scored memory.
#[derive(Debug)]
pub struct ResonanceResult {
    pub engram_id: EngramId,
    pub resonance_score: Double,
    pub episode_raw: String,
    pub emotional_charge: Double,
    pub importance_score: Double,
    pub identity_alignment: Double,
    pub semantic_sim: Double,
    pub recency_weight: Double,
    pub reward_score: Double,
    pub reward_factor: Double,
}

impl ResonanceResult {
    /// The result as it is shown and logged.
    pub open spec fn data_view(&self) -> JsonView {
        JsonView::Object(
            no_fields().push(
                ("engram_id"@, JsonView::Number(JsonNumber::Unsigned(self.engram_id))),
            ).push(("resonance_score"@, double_view(self.resonance_score))).push(
                ("episode_raw"@, JsonView::Text(self.episode_raw@)),
            ).push(("emotional_charge"@, double_view(self.emotional_charge))).push(
                ("importance_score"@, double_view(self.importance_score)),
            ).push(("identity_alignment"@, double_view(self.identity_alignment))).push(
                ("semantic_sim"@, double_view(self.semantic_sim)),
            ).push(("recency_weight"@, double_view(self.recency_weight))).push(
                ("reward_score"@, double_view(self.reward_score)),
            ).push(("reward_factor"@, double_view(self.reward_factor))),
        )
    }

    /// The result as it is shown and logged.
    pub fn data(&self) -> (r: Json)
        ensures
            r@ == self.data_view(),
    {
        ObjectBuilder::new().with("engram_id", Json::number(self.engram_id)).with(
            "resonance_score",
            double_data(self.resonance_score),
        ).with("episode_raw", Json::text(self.episode_raw.as_str())).with(
            "emotional_charge",
            double_data(self.emotional_charge),
        ).with("importance_score", double_data(self.importance_score)).with(
            "identity_alignment",
            double_data(self.identity_alignment),
        ).with("semantic_sim", double_data(self.semantic_sim)).with(
            "recency_weight",
            double_data(self.recency_weight),
        ).with("reward_score", double_data(self.reward_score)).with(
            "reward_factor",
            double_data(self.reward_factor),
        ).done()
    }
}

/// Results as they are shown and logged.
pub open spec fn results_view(results: Seq<ResonanceResult>) -> Seq<JsonView> {
    results.map_values(|r: ResonanceResult| r.data_view())
}

/// Results as they are shown and logged.
pub fn results_data(results: &Vec<ResonanceResult>) -> (r: Vec<Json>)
    ensures
        items_view(r@) == results_view(results@),
{
    let mut out: Vec<Json> = Vec::new();
    let mut i: usize = 0;
    while i < results.len()
        invariant
            i <= results@.len(),
            out@.len() == i,
            forall|k: int| 0 <= k < i ==> (#[trigger] out@[k])@ == results@[k].data_view(),
        decreases results@.len() - i,
    {
        out.push(results[i].data());
        i += 1;
    }
    assert(items_view(out@) =~= results_view(results@));
    out
}

/// Aggregate counts.
#[derive(Clone, Copy, Debug, PartialEq, Eq, Structural)]
pub struct MemoryStats {
    pub total_engrams: u64,
    pub contradictions: u64,
    pub concepts: u64,
    pub identities: u64,
}

impl Default for MemoryStats {
    fn default() -> (r: MemoryStats)
        ensures
            r == (MemoryStats { total_engrams: 0, contradictions: 0, concepts: 0, identities: 0 }),
    {
        MemoryStats { total_engrams: 0, contradictions: 0, concepts: 0, identities: 0 }
    }
}

/// Outcome of one consolidation cycle.
#[derive(Clone, Copy, Debug, PartialEq, Eq, Structural)]
pub struct ConsolidationReport {
    pub pruned: u64,
    pub compressed: u64,
    pub promoted: u64,
    pub contradictions_linked: u64,
}

impl Default for ConsolidationReport {
    fn default() -> (r: ConsolidationReport)
        ensures
            r == (ConsolidationReport {
                pruned: 0,
                compressed: 0,
                promoted: 0,
                contradictions_linked: 0,
            }),
    {
        ConsolidationReport { pruned: 0, compressed: 0, promoted: 0, contradictions_linked: 0 }
    }
}

/// Embedding dimension of the hosted provider.
pub const EMBEDDING_DIM: usize = 1536;

/// Embedding dimension of the default on-device model.
pub const LOCAL_EMBEDDING_DIM: usize = 384;

/// Every part of a result stands under its own name.
pub proof fn results_name_their_parts(r: ResonanceResult)
    ensures
        field(r.data_view(), "engram_id"@) == Some(
            JsonView::Number(JsonNumber::Unsigned(r.engram_id)),
        ),
        field(r.data_view(), "resonance_score"@) == Some(double_view(r.resonance_score)),
        field(r.data_view(), "episode_raw"@) == Some(JsonView::Text(r.episode_raw@)),
        field(r.data_view(), "emotional_charge"@) == Some(double_view(r.emotional_charge)),
        field(r.data_view(), "importance_score"@) == Some(double_view(r.importance_score)),
        field(r.data_view(), "identity_alignment"@) == Some(double_view(r.identity_alignment)),
        field(r.data_view(), "semantic_sim"@) == Some(double_view(r.semantic_sim)),
        field(r.data_view(), "recency_weight"@) == Some(double_view(r.recency_weight)),
        field(r.data_view(), "reward_score"@) == Some(double_view(r.reward_score)),
        field(r.data_view(), "reward_factor"@) == Some(double_view(r.reward_factor)),
{
    broadcast use lemma_lookup_push;

    reveal_strlit("engram_id");
    reveal_strlit("resonance_score");
    reveal_strlit("episode_raw");
    reveal_strlit("emotional_charge");
    reveal_strlit("importance_score");
    reveal_strlit("identity_alignment");
    reveal_strlit("semantic_sim");
    reveal_strlit("recency_weight");
    reveal_strlit("reward_score");
    reveal_strlit("reward_factor");
    assert("engram_id"@.len() == 9);
    assert("resonance_score"@.len() == 15);
    assert("episode_raw"@.len() == 11);
    assert("emotional_charge"@.len() == 16 && "emotional_charge"@[0] == 'e');
    assert("importance_score"@.len() == 16 && "importance_score"@[0] == 'i');
    assert("identity_alignment"@.len() == 18);
    assert("semantic_sim"@.len() == 12 && "semantic_sim"@[0] == 's');
    assert("recency_weight"@.len() == 14);
    assert("reward_score"@.len() == 12 && "reward_score"@[0] == 'r');
    assert("reward_factor"@.len() == 13);
}

/// Results are shown one for one, in their order.
pub proof fn results_are_shown_in_order(results: Seq<ResonanceResult>, i: int)
    requires
        0 <= i < results.len(),
    ensures
        results_view(results).len() == results.len(),
        results_view(results)[i] == results[i].data_view(),
{
}

/// The kinds of memories have names of their own.
pub proof fn kinds_have_their_own_names(a: EngramType, b: EngramType)
    ensures
        a.name() == b.name() ==> a == b,
        EngramType::Episodic.name() == "episodic"@,
        EngramType::Semantic.name() == "semantic"@,
        EngramType::Procedural.name() == "procedural"@,
{
    reveal_strlit("episodic");
    reveal_strlit("semantic");
    reveal_strlit("procedural");
    assert("episodic"@.len() == 8 && "episodic"@[0] == 'e');
    assert("semantic"@.len() == 8 && "semantic"@[0] == 's');
    assert("procedural"@.len() == 10);
}

} // verus!
