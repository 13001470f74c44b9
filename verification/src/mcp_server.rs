//! The single-tool server: one tool that runs every command.

use crate::double::Double;
use crate::http_api::{report_data, report_view, stats_data, stats_view};
use crate::json::{no_fields, Json, JsonView, ObjectBuilder};
use crate::text::same;
use crate::types::{ConsolidationReport, MemoryStats};
use vstd::prelude::*;

verus! {

/// How many memories a recall shows where no limit is given.
pub const DEFAULT_RECALL_LIMIT: usize = 5;

/// Why a tool call failed.
#[derive(Clone, Copy, Debug, PartialEq, Eq, Structural)]
pub enum McpErrorCode {
    /// The parameters are wrong.
    InvalidParams,
    /// The memory failed.
    InternalError,
}

/// A failed tool call.
#[derive(Debug, PartialEq, Eq)]
pub struct McpError {
    pub code: McpErrorCode,
    pub message: String,
}

impl McpError {
    /// The error says that the parameters are wrong, with this message.
    pub open spec fn invalid(self, message: Seq<char>) -> bool {
        self.code == McpErrorCode::InvalidParams && self.message@ == message
    }
}

pub(crate) fn invalid_params(message: String) -> (r: McpError)
    ensures
        r.invalid(message@),
{
    McpError { code: McpErrorCode::InvalidParams, message }
}

/// A failure of the memory.
pub fn internal(message: &str) -> (r: McpError)
    ensures
        r.code == McpErrorCode::InternalError,
        r.message@ == message@,
{
    McpError { code: McpErrorCode::InternalError, message: message.to_owned() }
}

/// The parameters of the tool.
#[derive(Debug)]
pub struct MnemosCliParams {
    pub command: String,
    pub text: Option<String>,
    pub query: Option<String>,
    pub limit: Option<usize>,
    /// The memory that an ingested one follows.
    pub prev_id: Option<u64>,
    /// The place after that memory.
    pub seq_pos: Option<i64>,
    /// Walk the sequence from this memory.
    pub follow_seq: Option<u64>,
    pub seq_depth: Option<usize>,
    pub seq_dir: Option<String>,
    pub attributions: Option<Vec<Double>>,
    pub score: Option<Double>,
    /// The recall that a reward is for.
    pub recall_id: Option<u64>,
    /// The topic of `help`.
    pub args: Option<Vec<String>>,
}

/// A command of the tool.
#[derive(Clone, Copy, Debug, PartialEq, Eq, Structural)]
pub enum Command {
    Ingest,
    Recall,
    Reward,
    Consolidate,
    Stats,
    Help,
}

/// The command of a name.
pub open spec fn command_named(raw: Seq<char>) -> Option<Command> {
    if raw == "ingest"@ {
        Some(Command::Ingest)
    } else if raw == "recall"@ {
        Some(Command::Recall)
    } else if raw == "reward"@ {
        Some(Command::Reward)
    } else if raw == "consolidate"@ {
        Some(Command::Consolidate)
    } else if raw == "stats"@ {
        Some(Command::Stats)
    } else if raw == "help"@ {
        Some(Command::Help)
    } else {
        None
    }
}

/// Reads the name of a command. Unknown names are wrong parameters.
pub fn parse_command(raw: &str) -> (r: Result<Command, McpError>)
    ensures
        match r {
            Ok(c) => command_named(raw@) == Some(c),
            Err(e) => command_named(raw@) is None && e.invalid("unknown command: "@ + raw@),
        },
{
    if same(raw, "ingest") {
        Ok(Command::Ingest)
    } else if same(raw, "recall") {
        Ok(Command::Recall)
    } else if same(raw, "reward") {
        Ok(Command::Reward)
    } else if same(raw, "consolidate") {
        Ok(Command::Consolidate)
    } else if same(raw, "stats") {
        Ok(Command::Stats)
    } else if same(raw, "help") {
        Ok(Command::Help)
    } else {
        Err(invalid_params("unknown command: ".to_owned().concat(raw)))
    }
}

/// The message of a parameter that a command lacks.
pub open spec fn missing_message(param: Seq<char>, command: Seq<char>) -> Seq<char> {
    "command '"@ + command + "' requires '"@ + param + "'"@
}

fn missing(param: &str, command: &str) -> (r: McpError)
    ensures
        r.invalid(missing_message(param@, command@)),
{
    invalid_params(
        "command '".to_owned().concat(command).concat("' requires '").concat(param).concat("'"),
    )
}

/// The text to ingest.
pub fn ingest_text(params: &MnemosCliParams) -> (r: Result<&str, McpError>)
    ensures
        match r {
            Ok(t) => params.text matches Some(text) && t@ == text@,
            Err(e) => params.text is None && e.invalid(missing_message("text"@, "ingest"@)),
        },
{
    match &params.text {
        Some(text) => Ok(text.as_str()),
        None => Err(missing("text", "ingest")),
    }
}

/// The query and the limit of a recall.
pub fn recall_args(params: &MnemosCliParams) -> (r: Result<(&str, usize), McpError>)
    ensures
        match r {
            Ok((q, limit)) => params.query matches Some(query) && q@ == query@ && limit
                == match params.limit {
                Some(n) => n,
                None => DEFAULT_RECALL_LIMIT,
            },
            Err(e) => params.query is None && e.invalid(missing_message("query"@, "recall"@)),
        },
{
    match &params.query {
        Some(query) => {
            let limit: usize = match params.limit {
                Some(n) => n,
                None => DEFAULT_RECALL_LIMIT,
            };
            Ok((query.as_str(), limit))
        },
        None => Err(missing("query", "recall")),
    }
}

/// The attributions and the score of a reward.
pub fn reward_args(params: &MnemosCliParams) -> (r: Result<(&Vec<Double>, Double), McpError>)
    ensures
        match r {
            Ok((a, score)) => params.attributions matches Some(given) && *a == given
                && params.score == Some(score),
            Err(e) => if params.attributions is None {
                e.invalid(missing_message("attributions"@, "reward"@))
            } else {
                params.score is None && e.invalid(missing_message("score"@, "reward"@))
            },
        },
{
    match &params.attributions {
        Some(attributions) => match params.score {
            Some(score) => Ok((attributions, score)),
            None => Err(missing("score", "reward")),
        },
        None => Err(missing("attributions", "reward")),
    }
}

/// Every command, one line each.
pub const GLOBAL_HELP: &'static str = "engram_cli commands (same as `mnemos <command>` on the shell via mnemos-app):\n- ingest: store one text episode\n- recall: search memory by resonance\n- reward: apply a scalar reward signal\n- consolidate: run one consolidation (sleep) cycle\n- stats: show aggregate memory counts\nCall with {\"command\":\"help\",\"args\":[\"<command>\"]} for per-command usage.";

/// The usage of `help`.
pub const HELP_HELP: &'static str = "help: show usage text.\nparams: args (optional string array; args[0] is the topic).\nexample: {\"command\":\"help\",\"args\":[\"recall\"]}";

/// The usage of `ingest`.
pub const HELP_INGEST: &'static str = "ingest: store one text episode into memory.\nparams: text (string, required).\nexample: {\"command\":\"ingest\",\"text\":\"the sky is blue\"}";

/// The usage of `recall`.
pub const HELP_RECALL: &'static str = "recall: search memory by resonance with a natural-language query.\nparams: query (string, required), limit (integer, optional, default 5).\nexample: {\"command\":\"recall\",\"query\":\"blue sky\",\"limit\":5}";

/// The usage of `reward`.
pub const HELP_REWARD: &'static str = "reward: apply a scalar reward signal with per-engram attributions.\nparams: attributions (array of numbers, required), score (number, required).\nexample: {\"command\":\"reward\",\"attributions\":[0.5,0.5],\"score\":1.0}";

/// The usage of `consolidate`.
pub const HELP_CONSOLIDATE: &'static str = "consolidate: run one memory consolidation (sleep) cycle.\nparams: none.\nexample: {\"command\":\"consolidate\"}";

/// The usage of `stats`.
pub const HELP_STATS: &'static str = "stats: show aggregate memory counts (engrams, concepts, identities).\nparams: none.\nexample: {\"command\":\"stats\"}";

/// Every command, one line each.
pub fn global_help() -> (r: String)
    ensures
        r@ == GLOBAL_HELP@,
{
    GLOBAL_HELP.to_owned()
}

/// The usage of a topic.
pub open spec fn help_on(topic: Seq<char>) -> Option<Seq<char>> {
    if topic == "help"@ {
        Some(HELP_HELP@)
    } else if topic == "ingest"@ {
        Some(HELP_INGEST@)
    } else if topic == "recall"@ {
        Some(HELP_RECALL@)
    } else if topic == "reward"@ {
        Some(HELP_REWARD@)
    } else if topic == "consolidate"@ {
        Some(HELP_CONSOLIDATE@)
    } else if topic == "stats"@ {
        Some(HELP_STATS@)
    } else {
        None
    }
}

/// The usage of a topic.
pub fn topic_help(topic: &str) -> (r: Option<String>)
    ensures
        match r {
            Some(t) => help_on(topic@) == Some(t@),
            None => help_on(topic@) is None,
        },
{
    if same(topic, "help") {
        Some(HELP_HELP.to_owned())
    } else if same(topic, "ingest") {
        Some(HELP_INGEST.to_owned())
    } else if same(topic, "recall") {
        Some(HELP_RECALL.to_owned())
    } else if same(topic, "reward") {
        Some(HELP_REWARD.to_owned())
    } else if same(topic, "consolidate") {
        Some(HELP_CONSOLIDATE.to_owned())
    } else if same(topic, "stats") {
        Some(HELP_STATS.to_owned())
    } else {
        None
    }
}

/// The answer to a topic that there is not.
pub open spec fn unknown_topic(name: Seq<char>) -> Seq<char> {
    "unknown help topic: "@ + name
        + ". valid topics: help, ingest, recall, reward, consolidate, stats"@
}

/// The help that is asked for: all commands without a topic, else the topic's
/// usage. An unknown topic is answered with the topics that there are.
pub fn help_for_topic(topic: Option<&str>) -> (r: Result<String, McpError>)
    ensures
        match topic {
            None => r matches Ok(t) && t@ == GLOBAL_HELP@,
            Some(name) => match help_on(name@) {
                Some(usage) => r matches Ok(t) && t@ == usage,
                None => r matches Err(e) && e.invalid(unknown_topic(name@)),
            },
        },
{
    match topic {
        None => Ok(global_help()),
        Some(name) => match topic_help(name) {
            Some(t) => Ok(t),
            None => Err(
                invalid_params(
                    "unknown help topic: ".to_owned().concat(name).concat(
                        ". valid topics: help, ingest, recall, reward, consolidate, stats",
                    ),
                ),
            ),
        },
    }
}

/// What a call of the tool asks for.
#[derive(Debug)]
pub enum ToolCall {
    /// Answer with this help.
    Help { text: String },
    Ingest { text: String },
    IngestSequential { text: String, prev_id: u64, seq_pos: Option<i64> },
    Recall { query: String, limit: usize },
    Follow { start: u64, depth: usize, dir: String },
    Reward { attributions: Vec<Double>, score: Double },
    RewardWithId { recall_id: u64, score: Double },
    Consolidate,
    Stats,
}

fn copy_doubles(v: &Vec<Double>) -> (r: Vec<Double>)
    ensures
        r@ == v@,
{
    let mut out: Vec<Double> = Vec::new();
    let mut i: usize = 0;
    while i < v.len()
        invariant
            i <= v@.len(),
            out@ == v@.take(i as int),
        decreases v@.len() - i,
    {
        out.push(v[i]);
        i += 1;
        assert(out@ =~= v@.take(i as int));
    }
    assert(out@ =~= v@);
    out
}

/// `r` is what a call of the tool asks for.
pub open spec fn tool_call_is(params: MnemosCliParams, r: Result<ToolCall, McpError>) -> bool {
    match command_named(params.command@) {
        None => r matches Err(e) && e.invalid("unknown command: "@ + params.command@),
        Some(Command::Help) => {
            let topic = match params.args {
                Some(args) => if args@.len() > 0 {
                    Some(args@[0]@)
                } else {
                    None
                },
                None => None,
            };
            match topic {
                None => r matches Ok(ToolCall::Help { text }) && text@ == GLOBAL_HELP@,
                Some(name) => match help_on(name) {
                    Some(usage) => r matches Ok(ToolCall::Help { text }) && text@ == usage,
                    None => r matches Err(e) && e.invalid(unknown_topic(name)),
                },
            }
        },
        Some(Command::Ingest) => match params.text {
            Some(t) => match params.prev_id {
                Some(prev) => r matches Ok(ToolCall::IngestSequential { text, prev_id, seq_pos })
                    && text@ == t@ && prev_id == prev && seq_pos == params.seq_pos,
                None => r matches Ok(ToolCall::Ingest { text }) && text@ == t@,
            },
            None => r matches Err(e) && e.invalid(missing_message("text"@, "ingest"@)),
        },
        Some(Command::Recall) => match (params.follow_seq, params.query) {
            (Some(from), _) => r matches Ok(ToolCall::Follow { start, depth, dir }) && start == from
                && depth == (match params.seq_depth {
                Some(n) => n,
                None => 10,
            }) && dir@ == match params.seq_dir {
                Some(d) => d@,
                None => "down"@,
            },
            (None, Some(q)) => r matches Ok(ToolCall::Recall { query, limit }) && query@ == q@
                && limit == match params.limit {
                Some(n) => n,
                None => DEFAULT_RECALL_LIMIT,
            },
            (None, None) => r matches Err(e) && e.invalid(missing_message("query"@, "recall"@)),
        },
        Some(Command::Reward) => match (params.recall_id, params.attributions, params.score) {
            (Some(id), _, Some(s)) => r == Ok::<ToolCall, McpError>(
                ToolCall::RewardWithId { recall_id: id, score: s },
            ),
            (None, Some(a), Some(s)) => r matches Ok(ToolCall::Reward { attributions, score })
                && attributions@ == a@ && score == s,
            (None, None, _) => r matches Err(e) && e.invalid(
                missing_message("attributions"@, "reward"@),
            ),
            (_, _, None) => r matches Err(e) && e.invalid(missing_message("score"@, "reward"@)),
        },
        Some(Command::Consolidate) => r matches Ok(ToolCall::Consolidate),
        Some(Command::Stats) => r matches Ok(ToolCall::Stats),
    }
}

/// What a call of the tool asks for.
pub fn engram_cli(params: &MnemosCliParams) -> (r: Result<ToolCall, McpError>)
    ensures
        tool_call_is(*params, r),
{
    let command = match parse_command(params.command.as_str()) {
        Ok(c) => c,
        Err(e) => {
            return Err(e);
        },
    };
    match command {
        Command::Help => {
            let topic: Option<&str> = match &params.args {
                Some(args) => if args.len() > 0 {
                    Some(args[0].as_str())
                } else {
                    None
                },
                None => None,
            };
            match help_for_topic(topic) {
                Ok(text) => Ok(ToolCall::Help { text }),
                Err(e) => Err(e),
            }
        },
        Command::Ingest => match ingest_text(params) {
            Ok(text) => match params.prev_id {
                Some(prev_id) => Ok(
                    ToolCall::IngestSequential {
                        text: text.to_owned(),
                        prev_id,
                        seq_pos: params.seq_pos,
                    },
                ),
                None => Ok(ToolCall::Ingest { text: text.to_owned() }),
            },
            Err(e) => Err(e),
        },
        Command::Recall => match params.follow_seq {
            Some(start) => {
                let depth: usize = match params.seq_depth {
                    Some(n) => n,
                    None => 10,
                };
                let dir = match &params.seq_dir {
                    Some(d) => d.clone(),
                    None => "down".to_owned(),
                };
                Ok(ToolCall::Follow { start, depth, dir })
            },
            None => match recall_args(params) {
                Ok((query, limit)) => Ok(ToolCall::Recall { query: query.to_owned(), limit }),
                Err(e) => Err(e),
            },
        },
        Command::Reward => match params.recall_id {
            Some(recall_id) => match params.score {
                Some(score) => Ok(ToolCall::RewardWithId { recall_id, score }),
                None => Err(missing("score", "reward")),
            },
            None => match reward_args(params) {
                Ok((attributions, score)) => Ok(
                    ToolCall::Reward { attributions: copy_doubles(attributions), score },
                ),
                Err(e) => Err(e),
            },
        },
        Command::Consolidate => Ok(ToolCall::Consolidate),
        Command::Stats => Ok(ToolCall::Stats),
    }
}

/// An object with one field.
pub open spec fn single(key: Seq<char>, value: JsonView) -> JsonView {
    JsonView::Object(no_fields().push((key, value)))
}

/// The payload of help.
pub fn help_payload(text: &str) -> (r: Json)
    ensures
        r@ == single("help"@, JsonView::Text(text@)),
{
    ObjectBuilder::new().with("help", Json::text(text)).done()
}

/// The payload of a reward.
pub fn ok_payload() -> (r: Json)
    ensures
        r@ == single("ok"@, JsonView::Bool(true)),
{
    ObjectBuilder::new().with("ok", Json::Bool(true)).done()
}

/// The payload of a consolidation.
pub fn report_payload(report: ConsolidationReport) -> (r: Json)
    ensures
        r@ == single("report"@, report_view(report)),
{
    ObjectBuilder::new().with("report", report_data(report)).done()
}

/// The payload of the counts.
pub fn stats_payload(stats: MemoryStats) -> (r: Json)
    ensures
        r@ == single("stats"@, stats_view(stats)),
{
    ObjectBuilder::new().with("stats", stats_data(stats)).done()
}

/// A command of the tool is known by its own name alone.
pub proof fn commands_are_known_by_name(raw: Seq<char>)
    ensures
        command_named(raw) == Some(Command::Ingest) <==> raw == "ingest"@,
        command_named(raw) == Some(Command::Recall) <==> raw == "recall"@,
        command_named(raw) == Some(Command::Reward) <==> raw == "reward"@,
        command_named(raw) == Some(Command::Consolidate) <==> raw == "consolidate"@,
        command_named(raw) == Some(Command::Stats) <==> raw == "stats"@,
        command_named(raw) == Some(Command::Help) <==> raw == "help"@,
{
    reveal_strlit("ingest");
    reveal_strlit("recall");
    reveal_strlit("reward");
    reveal_strlit("consolidate");
    reveal_strlit("stats");
    reveal_strlit("help");
    assert("ingest"@[0] == 'i' && "ingest"@.len() == 6);
    assert("recall"@[0] == 'r' && "recall"@[2] == 'c' && "recall"@.len() == 6);
    assert("reward"@[0] == 'r' && "reward"@[2] == 'w' && "reward"@.len() == 6);
    assert("consolidate"@.len() == 11 && "stats"@.len() == 5 && "help"@.len() == 4);
}

/// An ingest hands its text on, after the memory it names where it names one; a
/// recall its query and limit, or the walk it names; and each is refused without.
pub proof fn calls_hand_on_their_parameters(params: MnemosCliParams, r: Result<ToolCall, McpError>)
    requires
        tool_call_is(params, r),
    ensures
        params.command@ == "ingest"@ ==> (r is Err <==> params.text is None),
        params.command@ == "ingest"@ && params.prev_id is None ==> (params.text matches Some(t)
            ==> (r matches Ok(ToolCall::Ingest { text }) && text@ == t@)),
        params.command@ == "ingest"@ ==> (params.prev_id matches Some(p) ==> (
        params.text matches Some(t) ==> (r matches Ok(
            ToolCall::IngestSequential { text, prev_id, seq_pos },
        ) && text@ == t@ && prev_id == p && seq_pos == params.seq_pos))),
        params.command@ == "recall"@ && params.follow_seq is None ==> (params.query matches Some(q)
            ==> (r matches Ok(ToolCall::Recall { query, limit }) && query@ == q@ && (
        params.limit is None ==> limit == 5) && (params.limit matches Some(n) ==> limit == n))),
        params.command@ == "recall"@ ==> (params.follow_seq matches Some(f) ==> (r matches Ok(
            ToolCall::Follow { start, depth, .. },
        ) && start == f && (params.seq_depth is None ==> depth == 10) && (
        params.seq_depth matches Some(n) ==> depth == n))),
        params.command@ == "recall"@ ==> (r is Err <==> params.follow_seq is None
            && params.query is None),
        params.command@ == "consolidate"@ ==> (r matches Ok(ToolCall::Consolidate)),
        params.command@ == "stats"@ ==> (r matches Ok(ToolCall::Stats)),
{
    commands_are_known_by_name(params.command@);
}

/// A reward needs a score, and goes to the recall it names before any
/// attributions.
pub proof fn rewards_need_a_score(params: MnemosCliParams, r: Result<ToolCall, McpError>)
    requires
        tool_call_is(params, r),
        params.command@ == "reward"@,
    ensures
        params.score is None ==> r is Err,
        params.score matches Some(s) ==> (params.recall_id matches Some(id) ==> r == Ok::<
            ToolCall,
            McpError,
        >(ToolCall::RewardWithId { recall_id: id, score: s })),
        params.recall_id is None && params.attributions is None ==> r is Err,
        params.score matches Some(s) ==> (params.recall_id is None ==> (
        params.attributions matches Some(a) ==> (r matches Ok(
            ToolCall::Reward { attributions, score },
        ) && attributions@ == a@ && score == s))),
{
    commands_are_known_by_name(params.command@);
}

/// There is help on every command, and on nothing else.
pub proof fn every_command_has_help(topic: Seq<char>)
    ensures
        help_on(topic) is Some <==> command_named(topic) is Some,
{
}

} // verus!
