//! The tool set: one tool for each function of the memory.

use crate::double::Double;
use crate::http_api::{stats_data, stats_view};
use crate::json::{no_fields, Json, JsonView, ObjectBuilder};
use crate::mcp_server::{invalid_params, McpError};
use crate::text::same;
use crate::types::MemoryStats;
use vstd::prelude::*;

verus! {

/// How many memories a recall shows where no limit is given.
pub const DEFAULT_RECALL_LIMIT: usize = 10;

/// The limit of a recall that gives none.
pub fn default_recall_limit() -> (r: usize)
    ensures
        r == DEFAULT_RECALL_LIMIT,
{
    DEFAULT_RECALL_LIMIT
}

/// Parameters of `engram_ingest`.
#[derive(Debug)]
pub struct IngestParams {
    pub text: String,
    /// The memory that this one follows.
    pub prev_id: Option<u64>,
    /// The place after that memory.
    pub seq_pos: Option<i64>,
}

/// Parameters of `engram_recall`.
#[derive(Debug)]
pub struct RecallParams {
    pub query: String,
    pub limit: usize,
    /// Walk the sequence from this memory.
    pub follow_seq: Option<u64>,
    pub seq_depth: Option<usize>,
    pub seq_dir: Option<String>,
}

impl RecallParams {
    /// How many memories to show.
    pub fn effective_limit(&self) -> (r: usize)
        ensures
            r == self.limit,
    {
        self.limit
    }
}

/// Parameters of `engram_reward`.
#[derive(Debug)]
pub struct RewardParams {
    pub attributions: Vec<Double>,
    pub score: Double,
    pub recall_id: Option<u64>,
}

/// Parameters of `help`.
#[derive(Debug)]
pub struct HelpParams {
    pub tool: Option<String>,
}

/// What `engram_recall` asks for.
#[derive(Debug)]
pub enum RecallCall {
    Follow { start: u64, depth: usize, dir: String },
    Search { limit: usize },
}

/// `r` is what `engram_recall` asks for.
pub open spec fn recall_call_is(params: RecallParams, r: RecallCall) -> bool {
    match params.follow_seq {
        Some(start) => r matches RecallCall::Follow { start: s, depth, dir } && s == start
            && depth == (match params.seq_depth {
            Some(n) => n,
            None => 10,
        }) && dir@ == match params.seq_dir {
            Some(d) => d@,
            None => "down"@,
        },
        None => r == (RecallCall::Search { limit: params.limit }),
    }
}

/// What `engram_recall` asks for: a walk where it names a start, ten steps down
/// unless told otherwise; else a search.
pub fn recall_call(params: &RecallParams) -> (r: RecallCall)
    ensures
        recall_call_is(*params, r),
{
    match params.follow_seq {
        Some(start) => {
            let depth: usize = match params.seq_depth {
                Some(n) => n,
                None => 10,
            };
            let dir = match &params.seq_dir {
                Some(d) => d.clone(),
                None => "down".to_owned(),
            };
            RecallCall::Follow { start, depth, dir }
        },
        None => RecallCall::Search { limit: params.effective_limit() },
    }
}

/// One line for each tool.
pub const TOOL_LIST: &'static str = "mnemos memory tools (call help with tool=\"<name>\" for full usage):\n- engram_ingest: Ingest a text episode into memory.\n- engram_recall: Recall engrams resonating with a query.\n- engram_reward: Apply a scalar reward signal with per-engram attributions.\n- engram_consolidate: Run one memory consolidation (sleep) cycle.\n- engram_stats: Fetch aggregate memory stats (engrams, concepts, identities).\n- engram_status: Check embedding and LLM reachability plus stats.\n- help: Get usage help (this list, or per-tool detail).";

/// Usage of `engram_ingest`.
pub const HELP_INGEST: &'static str = "engram_ingest: Ingest a text episode into memory.\nParams:\ntext (string, required): Raw episode text to ingest.\nprev_id (integer, optional): Previous engram id for sequential chain (TemporalSequence).\nseq_pos (integer, optional): Position number for sequential edge (fan-out at same level).\nExample: {\"text\": \"the sky is blue\"}\nSequential example: {\"text\": \"ch2\", \"prev_id\": 123, \"seq_pos\": 1}\nReturns: {\"engram_id\": 42}";

/// Usage of `engram_recall`.
pub const HELP_RECALL: &'static str = "engram_recall: Recall engrams resonating with a query.\nParams:\nquery (string, required): Natural-language query to resonate against.\nlimit (integer, optional, default 10): Max results to return.\nfollow_seq (integer, optional): Follow sequential chain from this engram id (TemporalSequence).\nseq_depth (integer, optional, default 10): Depth for follow-seq walk.\nseq_dir (string, optional, default down): Direction for follow-seq walk: up|down|both.\nExample: {\"query\": \"blue sky\", \"limit\": 5}\nSequential walk: {\"follow_seq\": 123, \"seq_depth\": 5, \"seq_dir\": \"down\", \"query\": \"\"}\nReturns: {\"results\": [...]} or {\"sequential_chain\": [...]}";

/// Usage of `engram_reward`.
pub const HELP_REWARD: &'static str = "engram_reward: Apply a scalar reward signal with per-engram attributions.\nParams:\nattributions (array of numbers, optional, default []): Per-engram attribution weights.\nscore (number, required): Scalar reward signal.\nrecall_id (integer, optional): Ledger recall id from a prior engram_recall (parallel-safe reward).\nExample: {\"attributions\": [0.5, 0.5], \"score\": 1.0}\nExample (ledger): {\"recall_id\": 42, \"score\": 1.0}\nReturns: {\"ok\": true}";

/// Usage of `engram_consolidate`.
pub const HELP_CONSOLIDATE: &'static str = "engram_consolidate: Run one memory consolidation (sleep) cycle.\nParams: none.\nExample: {}\nReturns: {\"report\": {\"pruned\": 0, \"compressed\": 0, \"promoted\": 0, \"contradictions_linked\": 0}}";

/// Usage of `engram_stats`.
pub const HELP_STATS: &'static str = "engram_stats: Fetch aggregate memory stats (engrams, concepts, identities).\nParams: none.\nExample: {}\nReturns: {\"stats\": {\"total_engrams\": 0, \"contradictions\": 0, \"concepts\": 0, \"identities\": 0}}";

/// Usage of `engram_status`.
pub const HELP_STATUS: &'static str = "engram_status: Check embedding and LLM reachability plus stats.\nParams: none.\nExample: {}\nReturns: {\"stats\": {\"total_engrams\": 0, \"contradictions\": 0, \"concepts\": 0, \"identities\": 0}, \"embedding\": {\"ok\": true}, \"llm\": {\"ok\": true}}";

/// Usage of `help`.
pub const HELP_HELP: &'static str = "help: Get usage help for mnemos memory tools.\nParams:\ntool (string, optional): Tool name to get detailed usage for. Omit for a full tool list.\nExample: {\"tool\": \"engram_recall\"}\nReturns: full usage text (params, types, example JSON) for the named tool.";

/// One line for each tool.
pub fn tool_list() -> (r: String)
    ensures
        r@ == TOOL_LIST@,
{
    TOOL_LIST.to_owned()
}

/// Usage of `engram_ingest`.
pub fn help_ingest() -> (r: String)
    ensures
        r@ == HELP_INGEST@,
{
    HELP_INGEST.to_owned()
}

/// Usage of `engram_recall`.
pub fn help_recall() -> (r: String)
    ensures
        r@ == HELP_RECALL@,
{
    HELP_RECALL.to_owned()
}

/// Usage of `engram_reward`.
pub fn help_reward() -> (r: String)
    ensures
        r@ == HELP_REWARD@,
{
    HELP_REWARD.to_owned()
}

/// Usage of `engram_consolidate`.
pub fn help_consolidate() -> (r: String)
    ensures
        r@ == HELP_CONSOLIDATE@,
{
    HELP_CONSOLIDATE.to_owned()
}

/// Usage of `engram_stats`.
pub fn help_stats() -> (r: String)
    ensures
        r@ == HELP_STATS@,
{
    HELP_STATS.to_owned()
}

/// Usage of `engram_status`.
pub fn help_status() -> (r: String)
    ensures
        r@ == HELP_STATUS@,
{
    HELP_STATUS.to_owned()
}

/// Usage of `help`.
pub fn help_help() -> (r: String)
    ensures
        r@ == HELP_HELP@,
{
    HELP_HELP.to_owned()
}

/// The usage of a tool.
pub open spec fn usage_of(tool: Seq<char>) -> Option<Seq<char>> {
    if tool == "engram_ingest"@ {
        Some(HELP_INGEST@)
    } else if tool == "engram_recall"@ {
        Some(HELP_RECALL@)
    } else if tool == "engram_reward"@ {
        Some(HELP_REWARD@)
    } else if tool == "engram_consolidate"@ {
        Some(HELP_CONSOLIDATE@)
    } else if tool == "engram_stats"@ {
        Some(HELP_STATS@)
    } else if tool == "engram_status"@ {
        Some(HELP_STATUS@)
    } else if tool == "help"@ {
        Some(HELP_HELP@)
    } else {
        None
    }
}

/// The help that is asked for: all tools, or the usage of one. An unknown tool
/// is answered with the tools that there are.
pub fn help(params: &HelpParams) -> (r: Result<String, McpError>)
    ensures
        match params.tool {
            None => r matches Ok(t) && t@ == TOOL_LIST@,
            Some(tool) => match usage_of(tool@) {
                Some(usage) => r matches Ok(t) && t@ == usage,
                None => r matches Err(e) && e.invalid(
                    "unknown tool: "@ + tool@
                        + ". valid: engram_ingest, engram_recall, engram_reward, engram_consolidate, engram_stats, engram_status, help"@,
                ),
            },
        },
{
    let tool = match &params.tool {
        None => {
            return Ok(tool_list());
        },
        Some(t) => t.as_str(),
    };
    if same(tool, "engram_ingest") {
        Ok(help_ingest())
    } else if same(tool, "engram_recall") {
        Ok(help_recall())
    } else if same(tool, "engram_reward") {
        Ok(help_reward())
    } else if same(tool, "engram_consolidate") {
        Ok(help_consolidate())
    } else if same(tool, "engram_stats") {
        Ok(help_stats())
    } else if same(tool, "engram_status") {
        Ok(help_status())
    } else if same(tool, "help") {
        Ok(help_help())
    } else {
        Err(
            invalid_params(
                "unknown tool: ".to_owned().concat(tool).concat(
                    ". valid: engram_ingest, engram_recall, engram_reward, engram_consolidate, engram_stats, engram_status, help",
                ),
            ),
        )
    }
}

/// A provider that only the shell pings.
pub open spec fn unpinged() -> JsonView {
    JsonView::Object(
        no_fields().push(("note"@, JsonView::Text("use shell engram status for live ping"@))),
    )
}

/// The payload of `engram_status`.
pub fn status_payload(stats: MemoryStats, learning: Json) -> (r: Json)
    ensures
        r@ == JsonView::Object(
            no_fields().push(("stats"@, stats_view(stats))).push(("learning"@, learning@)).push(
                ("embedding"@, unpinged()),
            ).push(("llm"@, unpinged())),
        ),
{
    let embedding = ObjectBuilder::new().with(
        "note",
        Json::text("use shell engram status for live ping"),
    ).done();
    let llm = embedding.copy();
    ObjectBuilder::new().with("stats", stats_data(stats)).with("learning", learning).with(
        "embedding",
        embedding,
    ).with("llm", llm).done()
}

/// A recall that names a start walks from there, as deep and the way it says, or
/// ten steps down; one that names none searches, for as many as it says.
pub proof fn recalls_walk_from_a_named_start(params: RecallParams, r: RecallCall)
    requires
        recall_call_is(params, r),
    ensures
        params.follow_seq is None ==> r == (RecallCall::Search { limit: params.limit }),
        params.follow_seq matches Some(start) ==> (r matches RecallCall::Follow {
            start: s,
            depth,
            dir,
        } && s == start && (params.seq_depth matches Some(n) ==> depth == n) && (
        params.seq_depth is None ==> depth == 10) && (params.seq_dir matches Some(d) ==> dir@ == d@)
            && (params.seq_dir is None ==> dir@ == "down"@)),
{
}

/// There is a usage for each of the seven tools, and for nothing else.
pub proof fn seven_tools_have_a_usage(tool: Seq<char>)
    ensures
        usage_of(tool) is Some <==> seq![
            "engram_ingest"@,
            "engram_recall"@,
            "engram_reward"@,
            "engram_consolidate"@,
            "engram_stats"@,
            "engram_status"@,
            "help"@,
        ].contains(tool),
{
    let all = seq![
        "engram_ingest"@,
        "engram_recall"@,
        "engram_reward"@,
        "engram_consolidate"@,
        "engram_stats"@,
        "engram_status"@,
        "help"@,
    ];
    assert(all[0] == "engram_ingest"@ && all[1] == "engram_recall"@ && all[2] == "engram_reward"@);
    assert(all[3] == "engram_consolidate"@ && all[4] == "engram_stats"@);
    assert(all[5] == "engram_status"@ && all[6] == "help"@);
}

} // verus!
