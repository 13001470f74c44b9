//! The shell against the daemon: which commands are forwarded, what is sent, and
//! what is made of the answer.

use crate::cli_args::{
    command_of, is_direction, number_in, option_at, plain_recall, scan_recall, Command, CommandView,
    RecallArgs,
};
use crate::env::{truthy, Env};
use crate::http_api::{
    call_of, error_view, floats_in, ok_view, CallView, FloatView,
};
use crate::json::{
    field, items_view, lemma_lookup_push, list, no_fields, number_or_null, optional_number, text_of,
    Json, JsonNumber, JsonView, ObjectBuilder,
};
use crate::text::{
    blank, byte_len, contains, holds_text, len_in_bytes, parse_u64, to_unicode_lower, trim, trimmed,
    unicode_lowercase, unsigned_value,
};
use vstd::prelude::*;

verus! {

/// What the program does with a command.
#[derive(Clone, Copy, Debug, PartialEq, Eq, Structural)]
pub enum Dispatch {
    /// Print the usage of an agent and succeed.
    ShowUsage,
    /// Print the usage of an operator and succeed.
    ShowUsageAll,
    /// Print the message and the usage, and fail with status 2.
    Reject,
    /// Train the reranker.
    Train,
    /// Run the daemon.
    Serve,
    /// Hand the command to the daemon; without one, fail with status 1.
    Forward,
    /// Serve the memory over stdio from this process.
    Local,
}

/// What the program does with a command. Every command on the memory goes to the
/// daemon.
pub open spec fn dispatch_of(c: CommandView) -> Dispatch {
    match c {
        CommandView::Help => Dispatch::ShowUsage,
        CommandView::HelpAll => Dispatch::ShowUsageAll,
        CommandView::Invalid { message } => Dispatch::Reject,
        CommandView::TrainReranker => Dispatch::Train,
        CommandView::Serve => Dispatch::Serve,
        CommandView::Ingest { .. } | CommandView::Recall { .. } | CommandView::Reward { .. }
        | CommandView::Consolidate | CommandView::Stats | CommandView::Status
        | CommandView::Setup => Dispatch::Forward,
        CommandView::McpServer | CommandView::McpTools => Dispatch::Local,
    }
}

/// What the program does with a command.
pub fn dispatch(command: &Command) -> (r: Dispatch)
    ensures
        r == dispatch_of(command@),
{
    match command {
        Command::Help => Dispatch::ShowUsage,
        Command::HelpAll => Dispatch::ShowUsageAll,
        Command::Invalid { message: _ } => Dispatch::Reject,
        Command::TrainReranker => Dispatch::Train,
        Command::Serve => Dispatch::Serve,
        Command::Ingest { text: _, prev_id: _, seq_pos: _ } => Dispatch::Forward,
        Command::Recall { query: _, limit: _, follow_seq: _, depth: _, dir: _ } => Dispatch::Forward,
        Command::Reward { score: _, attributions: _, recall_id: _ } => Dispatch::Forward,
        Command::Consolidate => Dispatch::Forward,
        Command::Stats => Dispatch::Forward,
        Command::Setup => Dispatch::Forward,
        Command::Status => Dispatch::Forward,
        Command::McpServer => Dispatch::Local,
        Command::McpTools => Dispatch::Local,
    }
}

/// A signed number, or null where there is none.
pub open spec fn signed_or_null(n: Option<i64>) -> JsonView {
    match n {
        Some(v) => JsonView::Number(
            if v >= 0 {
                JsonNumber::Unsigned(v as u64)
            } else {
                JsonNumber::Signed(v)
            },
        ),
        None => JsonView::Null,
    }
}

fn optional_signed(n: Option<i64>) -> (r: Json)
    ensures
        r@ == signed_or_null(n),
{
    match n {
        Some(v) => if v >= 0 {
            Json::Number(JsonNumber::Unsigned(v as u64))
        } else {
            Json::Number(JsonNumber::Signed(v))
        },
        None => Json::Null,
    }
}

/// A request that names a command.
pub open spec fn naming(command: Seq<char>) -> Seq<(Seq<char>, JsonView)> {
    no_fields().push(("command"@, JsonView::Text(command)))
}

/// The request that a command sends to the daemon, where it sends one. The score
/// and the attributions of a reward come as JSON.
pub open spec fn request_view(
    c: CommandView,
    score: JsonView,
    attributions: Seq<JsonView>,
) -> Option<JsonView> {
    match c {
        CommandView::Ingest { text, prev_id, seq_pos } => Some(
            JsonView::Object(
                naming("ingest"@).push(("text"@, JsonView::Text(text))).push(
                    ("prev_id"@, number_or_null(prev_id)),
                ).push(("seq_pos"@, signed_or_null(seq_pos))),
            ),
        ),
        CommandView::Recall { query, limit, follow_seq, depth, dir } => Some(
            JsonView::Object(
                naming("recall"@).push(("query"@, JsonView::Text(query))).push(
                    ("limit"@, JsonView::Number(JsonNumber::Unsigned(limit as u64))),
                ).push(("follow_seq"@, number_or_null(follow_seq))).push(
                    ("depth"@, JsonView::Number(JsonNumber::Unsigned(depth as u64))),
                ).push(("dir"@, JsonView::Text(dir))),
            ),
        ),
        CommandView::Reward { score: _, attributions: _, recall_id } => Some(
            JsonView::Object(
                naming("reward"@).push(("score"@, score)).push(
                    ("attributions"@, JsonView::Array(attributions)),
                ).push(("recall_id"@, number_or_null(recall_id))),
            ),
        ),
        CommandView::Consolidate => Some(
            JsonView::Object(naming("consolidate"@).push(("aggressive"@, JsonView::Bool(true)))),
        ),
        CommandView::Setup => Some(JsonView::Object(naming("setup"@))),
        CommandView::Stats => Some(JsonView::Object(naming("stats"@))),
        CommandView::Status => Some(JsonView::Object(naming("status"@))),
        _ => None,
    }
}

fn named(command: &str) -> (r: ObjectBuilder)
    ensures
        crate::json::entries_view(r.entries@) == naming(command@),
{
    ObjectBuilder::new().with("command", Json::text(command))
}

/// The request that a command sends to the daemon, where it sends one.
pub fn daemon_request(command: &Command, score: Json, attributions: Vec<Json>) -> (r: Option<Json>)
    ensures
        match r {
            Some(j) => request_view(command@, score@, items_view(attributions@)) == Some(j@),
            None => request_view(command@, score@, items_view(attributions@)) is None,
        },
{
    match command {
        Command::Ingest { text, prev_id, seq_pos } => Some(
            named("ingest").with("text", Json::text(text.as_str())).with(
                "prev_id",
                optional_number(*prev_id),
            ).with("seq_pos", optional_signed(*seq_pos)).done(),
        ),
        Command::Recall { query, limit, follow_seq, depth, dir } => Some(
            named("recall").with("query", Json::text(query.as_str())).with(
                "limit",
                Json::number(*limit as u64),
            ).with("follow_seq", optional_number(*follow_seq)).with(
                "depth",
                Json::number(*depth as u64),
            ).with("dir", Json::text(dir.as_str())).done(),
        ),
        Command::Reward { score: _, attributions: _, recall_id } => Some(
            named("reward").with("score", score).with("attributions", list(attributions)).with(
                "recall_id",
                optional_number(*recall_id),
            ).done(),
        ),
        Command::Consolidate => Some(
            named("consolidate").with("aggressive", Json::Bool(true)).done(),
        ),
        Command::Setup => Some(named("setup").done()),
        Command::Stats => Some(named("stats").done()),
        Command::Status => Some(named("status").done()),
        _ => None,
    }
}

/// What the shell makes of an answer.
#[derive(Debug)]
pub enum Answer {
    /// Print the id of the new memory, and nothing where there is none.
    EngramId { id: Option<Json> },
    /// Say that the reward is applied.
    RewardApplied,
    /// Say that nothing relevant is known.
    DontKnow,
    /// Print the data.
    Data { data: Json },
    /// Report the failure and fail with status 1.
    Failed { message: String },
}

/// The data of an answer; null where it has none.
pub open spec fn data_of(reply: JsonView) -> JsonView {
    match field(reply, "data"@) {
        Some(d) => d,
        None => JsonView::Null,
    }
}

/// The data holds results.
pub open spec fn has_results(data: JsonView) -> bool {
    match field(data, "results"@) {
        Some(JsonView::Array(items)) => items.len() > 0,
        _ => false,
    }
}

/// `a` is what the shell makes of an answer to a command.
pub open spec fn answer_is(c: CommandView, reply: JsonView, a: Answer) -> bool {
    if field(reply, "ok"@) == Some(JsonView::Bool(true)) {
        match c {
            CommandView::Ingest { .. } => match field(data_of(reply), "engram_id"@) {
                Some(id) => a matches Answer::EngramId { id: Some(shown) } && shown@ == id,
                None => a matches Answer::EngramId { id: None },
            },
            CommandView::Reward { .. } => a is RewardApplied,
            CommandView::Recall { query, limit, follow_seq, depth, dir } => if follow_seq is None
                && !has_results(data_of(reply)) {
                a is DontKnow
            } else {
                a matches Answer::Data { data } && data@ == data_of(reply)
            },
            _ => a matches Answer::Data { data } && data@ == data_of(reply),
        }
    } else {
        let words = match field(reply, "error"@) {
            Some(e) => text_of(e),
            None => None,
        };
        a matches Answer::Failed { message } && message@ == match words {
            Some(m) => m,
            None => "unknown"@,
        }
    }
}

fn data_in(reply: &Json) -> (r: Json)
    ensures
        r@ == data_of(reply@),
{
    match reply.get("data") {
        Some(d) => d.copy(),
        None => Json::Null,
    }
}

/// What the shell makes of an answer to a command.
pub fn read_answer(command: &Command, reply: &Json) -> (r: Answer)
    ensures
        answer_is(command@, reply@, r),
{
    let ok = match reply.get("ok") {
        Some(v) => match v.as_bool() {
            Some(b) => b,
            None => false,
        },
        None => false,
    };
    if !ok {
        let words = match reply.get("error") {
            Some(e) => e.as_text(),
            None => None,
        };
        return match words {
            Some(m) => Answer::Failed { message: m.to_owned() },
            None => Answer::Failed { message: "unknown".to_owned() },
        };
    }
    let data = data_in(reply);
    match command {
        Command::Ingest { text: _, prev_id: _, seq_pos: _ } => match data.get("engram_id") {
            Some(id) => Answer::EngramId { id: Some(id.copy()) },
            None => Answer::EngramId { id: None },
        },
        Command::Reward { score: _, attributions: _, recall_id: _ } => Answer::RewardApplied,
        Command::Recall { query: _, limit: _, follow_seq, depth: _, dir: _ } => {
            let found = match data.get("results") {
                Some(v) => match v.as_array() {
                    Some(items) => items.len() > 0,
                    None => false,
                },
                None => false,
            };
            if follow_seq.is_none() && !found {
                Answer::DontKnow
            } else {
                Answer::Data { data }
            }
        },
        _ => Answer::Data { data },
    }
}

/// What is said where no daemon answers.
pub fn not_running(base_url: &str) -> (r: String)
    ensures
        r@ == "engram daemon is not running (tried "@ + base_url@
            + "). Start it with `engram serve` first."@,
{
    "engram daemon is not running (tried ".to_owned().concat(base_url).concat(
        "). Start it with `engram serve` first.",
    )
}

/// Whether the daemon creates the data root and the vector index on its first
/// start: always, unless `MNEMOS_SETUP_ON_START` says otherwise.
pub fn setup_on_start(env: &Env) -> (r: bool)
    ensures
        r == match env.value("MNEMOS_SETUP_ON_START"@) {
            Some(v) => truthy(v),
            None => true,
        },
{
    env.parse_bool_env("MNEMOS_SETUP_ON_START", true)
}

/// Seconds between background consolidations; 0 means none.
pub fn consolidate_interval(env: &Env) -> (r: u64)
    ensures
        r == match env.value("MNEMOS_CONSOLIDATE_INTERVAL_SECS"@) {
            Some(v) => match unsigned_value(trimmed(v), u64::MAX as nat) {
                Some(n) => n,
                None => 0,
            },
            None => 0,
        },
{
    match env.get("MNEMOS_CONSOLIDATE_INTERVAL_SECS") {
        Some(v) => match parse_u64(trim(v)) {
            Some(n) => n,
            None => 0,
        },
        None => 0,
    }
}

/// A reply that reads like reasoning: it thinks aloud, speaks of reasoning, or
/// runs over five hundred bytes. `low` is the reply in lower case.
pub open spec fn reasons(reply: Seq<char>, low: Seq<char>) -> bool {
    holds_text(reply, "<think>"@) || holds_text(low, "reasoning"@) || byte_len(reply) > 500
}

/// Whether a reply reads like reasoning, given the reply in lower case.
pub fn reads_like_reasoning(reply: &str, low: &str) -> (r: bool)
    ensures
        r == reasons(reply@, low@),
{
    contains(reply, "<think>") || contains(low, "reasoning") || len_in_bytes(reply) > 500
}

/// Whether a reply reads like reasoning.
pub fn is_reasoning(reply: &str) -> (r: bool)
    ensures
        r == reasons(reply@, unicode_lowercase(reply@)),
{
    let low = to_unicode_lower(reply);
    reads_like_reasoning(reply, low.as_str())
}

/// The first characters of a reply.
pub open spec fn sample_of(reply: Seq<char>) -> Seq<char> {
    if reply.len() <= 120 {
        reply
    } else {
        reply.take(120)
    }
}

/// A chat provider that answered, in the status.
pub open spec fn llm_view(
    provider: Seq<char>,
    model: Seq<char>,
    base_url: Seq<char>,
    reply: Seq<char>,
) -> JsonView {
    let reasoning = reasons(reply, unicode_lowercase(reply));
    JsonView::Object(
        no_fields().push(("ok"@, JsonView::Bool(true))).push(
            ("provider"@, JsonView::Text(provider)),
        ).push(("model"@, JsonView::Text(model))).push(
            ("base_url"@, JsonView::Text(base_url)),
        ).push(("sample"@, JsonView::Text(sample_of(reply)))).push(
            ("reasoning_detected"@, JsonView::Bool(reasoning)),
        ).push(
            (
                "note"@,
                JsonView::Text(
                    if reasoning {
                        "response looks like reasoning - may need prompt tuning for instant"@
                    } else {
                        "instant"@
                    },
                ),
            ),
        ),
    )
}

/// A chat provider that answered, in the status.
pub fn llm_status(provider: &str, model: &str, base_url: &str, reply: &str) -> (r: Json)
    ensures
        r@ == llm_view(provider@, model@, base_url@, reply@),
{
    let reasoning = is_reasoning(reply);
    let n: usize = reply.unicode_len();
    let sample = if n <= 120 {
        reply
    } else {
        reply.substring_char(0, 120)
    };
    assert(sample@ =~= sample_of(reply@));
    let note = if reasoning {
        "response looks like reasoning - may need prompt tuning for instant"
    } else {
        "instant"
    };
    ObjectBuilder::new().with("ok", Json::Bool(true)).with(
        "provider",
        Json::text(provider),
    ).with("model", Json::text(model)).with("base_url", Json::text(base_url)).with(
        "sample",
        Json::text(sample),
    ).with("reasoning_detected", Json::Bool(reasoning)).with("note", Json::text(note)).done()
}

/// A part that failed, in the status.
pub fn failed_status(message: &str) -> (r: Json)
    ensures
        r@ == JsonView::Object(
            no_fields().push(("ok"@, JsonView::Bool(false))).push(
                ("error"@, JsonView::Text(message@)),
            ),
        ),
{
    ObjectBuilder::new().with("ok", Json::Bool(false)).with("error", Json::text(message)).done()
}

/// A chat provider that refused, in the status.
pub fn refused_status(message: &str, provider: &str) -> (r: Json)
    ensures
        r@ == JsonView::Object(
            no_fields().push(("ok"@, JsonView::Bool(false))).push(
                ("error"@, JsonView::Text(message@)),
            ).push(("provider"@, JsonView::Text(provider@))),
        ),
{
    ObjectBuilder::new().with("ok", Json::Bool(false)).with("error", Json::text(message)).with(
        "provider",
        Json::text(provider),
    ).done()
}

/// An embedding provider that answered, in the status.
pub fn embedding_status(dim: usize, provider: &str) -> (r: Json)
    ensures
        r@ == JsonView::Object(
            no_fields().push(("ok"@, JsonView::Bool(true))).push(
                ("dim"@, JsonView::Number(JsonNumber::Unsigned(dim as u64))),
            ).push(("provider"@, JsonView::Text(provider@))),
        ),
{
    ObjectBuilder::new().with("ok", Json::Bool(true)).with("dim", Json::number(dim as u64)).with(
        "provider",
        Json::text(provider),
    ).done()
}

/// What a command asks of the memory, where it asks anything. The score and the
/// attributions of a reward come as numbers.
pub open spec fn asked_by(
    c: CommandView,
    score: JsonNumber,
    attributions: Seq<JsonNumber>,
) -> Option<CallView> {
    match c {
        CommandView::Ingest { text, prev_id: Some(prev_id), seq_pos } => Some(
            CallView::IngestSequential { text, prev_id, seq_pos },
        ),
        CommandView::Ingest { text, prev_id: None, seq_pos: _ } => Some(CallView::Ingest { text }),
        CommandView::Recall { query: _, limit: _, follow_seq: Some(start), depth, dir } => Some(
            CallView::FollowSequence { start, depth, dir },
        ),
        CommandView::Recall { query, limit, follow_seq: None, depth: _, dir: _ } => Some(
            CallView::Recall { query, limit },
        ),
        CommandView::Reward { score: _, attributions: _, recall_id: Some(recall_id) } => Some(
            CallView::RewardWithId { recall_id, score: FloatView::Number(score) },
        ),
        CommandView::Reward { score: _, attributions: _, recall_id: None } => Some(
            CallView::Reward {
                attributions: numbers(attributions),
                score: FloatView::Number(score),
            },
        ),
        CommandView::Consolidate => Some(CallView::Consolidate { aggressive: true }),
        CommandView::Setup => Some(CallView::Setup),
        CommandView::Stats => Some(CallView::Stats),
        CommandView::Status => Some(CallView::Status),
        _ => None,
    }
}

/// Numbers as doubles of a request.
pub open spec fn numbers(items: Seq<JsonNumber>) -> Seq<FloatView> {
    items.map_values(|n: JsonNumber| FloatView::Number(n))
}

/// Numbers as JSON.
pub open spec fn number_items(items: Seq<JsonNumber>) -> Seq<JsonView> {
    items.map_values(|n: JsonNumber| JsonView::Number(n))
}

proof fn lemma_numbers_stay(items: Seq<JsonNumber>)
    ensures
        floats_in(number_items(items)) == numbers(items),
    decreases items.len(),
{
    if items.len() == 0 {
        assert(numbers(items) =~= Seq::empty());
    } else {
        lemma_numbers_stay(items.drop_last());
        assert(number_items(items).drop_last() =~= number_items(items.drop_last()));
        assert(numbers(items) =~= numbers(items.drop_last()).push(
            FloatView::Number(items.last()),
        ));
    }
}

/// A command that the shell can give: its text is not blank, and a direction is
/// one of the known ones.
pub open spec fn can_be_given(c: CommandView) -> bool {
    match c {
        CommandView::Ingest { text, prev_id: _, seq_pos: _ } => !blank(text),
        CommandView::Recall { query, limit: _, follow_seq, depth: _, dir } => (follow_seq is None
            ==> !blank(query)) && is_direction(dir),
        _ => true,
    }
}

proof fn lemma_direction_stays(words: Seq<Seq<char>>, i: int, args: RecallArgs)
    requires
        is_direction(args.dir),
    ensures
        scan_recall(words, i, args) matches Ok(r) ==> is_direction(r.dir),
    decreases words.len() - i,
{
    if i < 0 || i >= words.len() {
    } else if let Some((value, next)) = option_at(words, i, "--limit"@) {
        if let Some(n) = number_in(value, usize::MAX as nat) {
            lemma_direction_stays(words, next, RecallArgs { limit: n as usize, ..args });
        }
    } else if let Some((value, next)) = option_at(words, i, "--follow-seq"@) {
        if let Some(n) = number_in(value, u64::MAX as nat) {
            lemma_direction_stays(words, next, RecallArgs { follow_seq: Some(n as u64), ..args });
        }
    } else if let Some((value, next)) = option_at(words, i, "--depth"@) {
        if let Some(n) = number_in(value, usize::MAX as nat) {
            lemma_direction_stays(words, next, RecallArgs { depth: n as usize, ..args });
        }
    } else if let Some((value, next)) = option_at(words, i, "--dir"@) {
        if let Some(v) = value {
            if is_direction(v) {
                lemma_direction_stays(words, next, RecallArgs { dir: v, ..args });
            }
        }
    } else {
        lemma_direction_stays(
            words,
            i + 1,
            RecallArgs { parts: args.parts.push(words[i]), ..args },
        );
    }
}

/// Whatever a command line parses to is a command that can be given.
pub proof fn parsed_commands_can_be_given(argv: Seq<Seq<char>>)
    ensures
        can_be_given(command_of(argv)),
{
    if argv.len() >= 2 {
        lemma_direction_stays(argv.skip(2), 0, plain_recall());
    }
}

proof fn lemma_ingest_arrives(text: Seq<char>, prev_id: Option<u64>, seq_pos: Option<i64>)
    requires
        !blank(text),
    ensures
        ({
            let c = CommandView::Ingest { text, prev_id, seq_pos };
            forall|score: JsonNumber, attributions: Seq<JsonNumber>| #[trigger]
                call_of(
                    request_view(
                        c,
                        JsonView::Number(score),
                        number_items(attributions),
                    ).unwrap(),
                ) == Ok::<CallView, Seq<char>>(asked_by(c, score, attributions).unwrap())
        }),
{
    broadcast use lemma_lookup_push;

    reveal_strlit("command");
    reveal_strlit("text");
    reveal_strlit("prev_id");
    reveal_strlit("seq");
    reveal_strlit("seq_pos");
    reveal_strlit("pos");
    assert("command"@.len() != "text"@.len());
    assert("command"@[0] != "prev_id"@[0]);
    assert("command"@[0] != "seq_pos"@[0]);
    assert("text"@.len() != "prev_id"@.len());
    assert("text"@.len() != "seq_pos"@.len());
    assert("prev_id"@[0] != "seq_pos"@[0]);
    assert("seq"@.len() != "command"@.len());
    assert("seq"@.len() != "text"@.len());
    assert("seq"@.len() != "prev_id"@.len());
    assert("seq"@.len() != "seq_pos"@.len());
    assert("pos"@.len() != "command"@.len());
    assert("pos"@.len() != "text"@.len());
    assert("pos"@.len() != "prev_id"@.len());
    assert("pos"@.len() != "seq_pos"@.len());
}

proof fn lemma_recall_arrives(
    query: Seq<char>,
    limit: usize,
    follow_seq: Option<u64>,
    depth: usize,
    dir: Seq<char>,
)
    requires
        follow_seq is None ==> !blank(query),
        is_direction(dir),
    ensures
        ({
            let c = CommandView::Recall { query, limit, follow_seq, depth, dir };
            forall|score: JsonNumber, attributions: Seq<JsonNumber>| #[trigger]
                call_of(
                    request_view(
                        c,
                        JsonView::Number(score),
                        number_items(attributions),
                    ).unwrap(),
                ) == Ok::<CallView, Seq<char>>(asked_by(c, score, attributions).unwrap())
        }),
{
    broadcast use lemma_lookup_push;

    reveal_strlit("command");
    reveal_strlit("query");
    reveal_strlit("limit");
    reveal_strlit("follow_seq");
    reveal_strlit("depth");
    reveal_strlit("dir");
    reveal_strlit("ingest");
    reveal_strlit("recall");
    assert("command"@.len() != "query"@.len());
    assert("command"@.len() != "limit"@.len());
    assert("command"@.len() != "follow_seq"@.len());
    assert("command"@.len() != "depth"@.len());
    assert("command"@.len() != "dir"@.len());
    assert("query"@[0] != "limit"@[0]);
    assert("query"@.len() != "follow_seq"@.len());
    assert("query"@[0] != "depth"@[0]);
    assert("query"@.len() != "dir"@.len());
    assert("limit"@.len() != "follow_seq"@.len());
    assert("limit"@[0] != "depth"@[0]);
    assert("limit"@.len() != "dir"@.len());
    assert("follow_seq"@.len() != "depth"@.len());
    assert("follow_seq"@.len() != "dir"@.len());
    assert("depth"@.len() != "dir"@.len());
    assert("recall"@[0] != "ingest"@[0]);
    vstd::arithmetic::div_mod::lemma_small_mod(depth as nat, (usize::MAX + 1) as nat);
    vstd::arithmetic::div_mod::lemma_small_mod(limit as nat, (usize::MAX + 1) as nat);
}

proof fn lemma_reward_arrives(
    shown: Seq<char>,
    parts: Seq<Seq<char>>,
    recall_id: Option<u64>,
    score: JsonNumber,
    attributions: Seq<JsonNumber>,
)
    ensures
        ({
            let c = CommandView::Reward { score: shown, attributions: parts, recall_id };
            call_of(
                request_view(c, JsonView::Number(score), number_items(attributions)).unwrap(),
            ) == Ok::<CallView, Seq<char>>(asked_by(c, score, attributions).unwrap())
        }),
{
    broadcast use lemma_lookup_push;

    reveal_strlit("command");
    reveal_strlit("score");
    reveal_strlit("attributions");
    reveal_strlit("recall_id");
    reveal_strlit("ingest");
    reveal_strlit("recall");
    reveal_strlit("reward");
    assert("command"@.len() != "score"@.len());
    assert("command"@.len() != "attributions"@.len());
    assert("command"@.len() != "recall_id"@.len());
    assert("score"@.len() != "attributions"@.len());
    assert("score"@.len() != "recall_id"@.len());
    assert("attributions"@.len() != "recall_id"@.len());
    assert("reward"@[0] != "ingest"@[0]);
    assert("reward"@[2] != "recall"@[2]);
    lemma_numbers_stay(attributions);
}

proof fn lemma_bare_arrives(c: CommandView, score: JsonNumber, attributions: Seq<JsonNumber>)
    requires
        c is Consolidate || c is Setup || c is Stats || c is Status,
    ensures
        call_of(request_view(c, JsonView::Number(score), number_items(attributions)).unwrap())
            == Ok::<CallView, Seq<char>>(asked_by(c, score, attributions).unwrap()),
{
    broadcast use lemma_lookup_push;

    reveal_strlit("command");
    reveal_strlit("aggressive");
    reveal_strlit("ingest");
    reveal_strlit("recall");
    reveal_strlit("reward");
    reveal_strlit("consolidate");
    reveal_strlit("stats");
    reveal_strlit("status");
    reveal_strlit("setup");
    assert("command"@.len() != "aggressive"@.len());
    assert("consolidate"@.len() != "ingest"@.len());
    assert("consolidate"@.len() != "recall"@.len());
    assert("consolidate"@.len() != "reward"@.len());
    assert("stats"@.len() != "ingest"@.len());
    assert("stats"@.len() != "recall"@.len());
    assert("stats"@.len() != "reward"@.len());
    assert("stats"@.len() != "consolidate"@.len());
    assert("status"@[0] != "ingest"@[0]);
    assert("status"@[0] != "recall"@[0]);
    assert("status"@[0] != "reward"@[0]);
    assert("status"@.len() != "consolidate"@.len());
    assert("status"@.len() != "stats"@.len());
    assert("setup"@.len() != "ingest"@.len());
    assert("setup"@.len() != "recall"@.len());
    assert("setup"@.len() != "reward"@.len());
    assert("setup"@.len() != "consolidate"@.len());
    assert("setup"@[1] != "stats"@[1]);
    assert("setup"@.len() != "status"@.len());
}

/// A command that the shell forwards asks of the daemon's memory what it would
/// ask of one in the shell's own process.
pub proof fn shell_and_daemon_agree(
    c: CommandView,
    score: JsonNumber,
    attributions: Seq<JsonNumber>,
)
    requires
        can_be_given(c),
    ensures
        request_view(c, JsonView::Number(score), number_items(attributions)) is Some
            == asked_by(c, score, attributions) is Some,
        request_view(c, JsonView::Number(score), number_items(attributions)) matches Some(req)
            ==> call_of(req) == Ok::<CallView, Seq<char>>(
            asked_by(c, score, attributions).unwrap(),
        ),
{
    match c {
        CommandView::Ingest { text, prev_id, seq_pos } => {
            lemma_ingest_arrives(text, prev_id, seq_pos);
        },
        CommandView::Recall { query, limit, follow_seq, depth, dir } => {
            lemma_recall_arrives(query, limit, follow_seq, depth, dir);
        },
        CommandView::Reward { score: shown, attributions: parts, recall_id } => {
            lemma_reward_arrives(shown, parts, recall_id, score, attributions);
        },
        CommandView::Consolidate | CommandView::Setup | CommandView::Stats
        | CommandView::Status => {
            lemma_bare_arrives(c, score, attributions);
        },
        _ => {},
    }
}

/// A command is forwarded exactly where there is a request to send for it.
pub proof fn forwarded_commands_have_requests(
    c: CommandView,
    score: JsonView,
    attributions: Seq<JsonView>,
)
    ensures
        dispatch_of(c) == Dispatch::Forward <==> request_view(c, score, attributions) is Some,
{
}

/// The shell finds in a successful answer the data that the daemon put there, and
/// in a failed one the message.
pub proof fn answers_arrive(data: JsonView, message: Seq<char>)
    ensures
        field(ok_view(data), "ok"@) == Some(JsonView::Bool(true)),
        data_of(ok_view(data)) == data,
        field(error_view(message), "ok"@) == Some(JsonView::Bool(false)),
        field(error_view(message), "error"@) == Some(JsonView::Text(message)),
{
    broadcast use lemma_lookup_push;

    reveal_strlit("ok");
    reveal_strlit("data");
    reveal_strlit("error");
    assert("ok"@.len() != "data"@.len());
    assert("ok"@.len() != "error"@.len());
}

/// Commands on the memory go to the daemon; the program itself prints its usage,
/// trains, serves, and speaks over stdio.
pub proof fn commands_on_the_memory_are_forwarded(c: CommandView)
    ensures
        c is Ingest || c is Recall || c is Reward || c is Consolidate || c is Stats || c is Status
            || c is Setup ==> dispatch_of(c) == Dispatch::Forward,
        c is Help ==> dispatch_of(c) == Dispatch::ShowUsage,
        c is HelpAll ==> dispatch_of(c) == Dispatch::ShowUsageAll,
        c is Invalid ==> dispatch_of(c) == Dispatch::Reject,
        c is Serve ==> dispatch_of(c) == Dispatch::Serve,
        c is TrainReranker ==> dispatch_of(c) == Dispatch::Train,
        c is McpServer || c is McpTools ==> dispatch_of(c) == Dispatch::Local,
{
}

/// The shell shows a recall's memories where there are any, says that it does not
/// know where there are none, and shows a walk either way.
pub proof fn recalls_without_results_are_unknown(
    query: Seq<char>,
    limit: usize,
    follow_seq: Option<u64>,
    depth: usize,
    dir: Seq<char>,
    reply: JsonView,
    data: JsonView,
    a: Answer,
)
    requires
        answer_is(CommandView::Recall { query, limit, follow_seq, depth, dir }, reply, a),
        field(reply, "ok"@) == Some(JsonView::Bool(true)),
        field(reply, "data"@) == Some(data),
    ensures
        follow_seq is Some ==> (a matches Answer::Data { data: shown } && shown@ == data),
        follow_seq is None ==> (field(data, "results"@) matches Some(JsonView::Array(items)) ==> (
        a is DontKnow <==> items.len() == 0)),
        follow_seq is None && field(data, "results"@) is None ==> a is DontKnow,
        !(a is DontKnow) ==> (a matches Answer::Data { data: shown } && shown@ == data),
{
}

/// An answer that does not say that it succeeded is a failure, with the message it
/// carries.
pub proof fn failures_carry_their_message(
    c: CommandView,
    reply: JsonView,
    message: Seq<char>,
    a: Answer,
)
    requires
        answer_is(c, reply, a),
        field(reply, "ok"@) != Some(JsonView::Bool(true)),
    ensures
        a is Failed,
        field(reply, "error"@) == Some(JsonView::Text(message)) ==> a->message@ == message,
{
}

/// A stored memory is answered with its id, and a reward with a word.
pub proof fn ingests_are_answered_with_their_id(
    c: CommandView,
    reply: JsonView,
    data: JsonView,
    id: JsonView,
    a: Answer,
)
    requires
        answer_is(c, reply, a),
        field(reply, "ok"@) == Some(JsonView::Bool(true)),
        field(reply, "data"@) == Some(data),
        field(data, "engram_id"@) == Some(id),
    ensures
        c is Ingest ==> (a matches Answer::EngramId { id: Some(shown) } && shown@ == id),
        c is Reward ==> a is RewardApplied,
        c is Stats || c is Status || c is Setup || c is Consolidate ==> (a matches Answer::Data {
            data: shown,
        } && shown@ == data),
{
}

/// A reply of at most five hundred bytes that does not speak of reasoning is taken
/// for an instant one, and any other for reasoning.
pub proof fn short_plain_replies_are_instant(reply: Seq<char>, low: Seq<char>)
    ensures
        byte_len(reply) > 500 ==> reasons(reply, low),
        holds_text(reply, "<think>"@) ==> reasons(reply, low),
        holds_text(low, "reasoning"@) ==> reasons(reply, low),
        reasons(reply, low) ==> byte_len(reply) > 500 || holds_text(reply, "<think>"@)
            || holds_text(low, "reasoning"@),
{
}

/// A sample is the first hundred and twenty characters of a reply, or all of a
/// shorter one.
pub proof fn samples_are_the_beginning(reply: Seq<char>)
    ensures
        sample_of(reply).is_prefix_of(reply),
        sample_of(reply).len() <= 120,
        sample_of(reply).len() < 120 ==> sample_of(reply) == reply,
        reply.len() >= 120 ==> sample_of(reply).len() == 120,
{
    assert(sample_of(reply).is_prefix_of(reply));
}

/// A position is sent as the number it is, and as null where there is none.
pub proof fn positions_are_sent_as_numbers(v: i64)
    ensures
        v >= 0 ==> signed_or_null(Some(v)) == JsonView::Number(JsonNumber::Unsigned(v as u64)),
        v < 0 ==> signed_or_null(Some(v)) == JsonView::Number(JsonNumber::Signed(v)),
        signed_or_null(None) == JsonView::Null,
{
}

} // verus!
