//! Commands over HTTP: what a request asks of the memory, and how the answer is
//! wrapped.

use crate::cli_args::{is_direction, names_direction};
use crate::env::{is_truthy, truthy};
use crate::http_routes::{
    decode, decoded, pair_views, parse_query, plain_texts_stay, query_pairs, Method,
};
use crate::json::{
    field, items_view, lemma_lookup_push, list, no_fields, number_or_null, optional_number,
    read_json_bytes, text_of, text_view, written_in, Json, JsonNumber, JsonView, ObjectBuilder,
};
use crate::text::{
    blank, decimal, decimal_reads_back, float_text, i64_value, is_blank, is_float_text,
    numerals_are_trimmed, parse_i64, parse_u64, quote, quoted,
    same, split, split_on, trim, trimmed, unsigned_value, views,
};
use crate::types::{results_data, results_view, ConsolidationReport, MemoryStats, ResonanceResult};
use vstd::prelude::*;

verus! {

/// A double as a request gives it: a JSON number, or the text of a double.
#[derive(Debug, PartialEq, Eq)]
pub enum FloatArg {
    Number(JsonNumber),
    Text(String),
}

/// A double of a request by value.
pub enum FloatView {
    Number(JsonNumber),
    Text(Seq<char>),
}

impl FloatArg {
    pub open spec fn view(&self) -> FloatView {
        match self {
            FloatArg::Number(n) => FloatView::Number(*n),
            FloatArg::Text(s) => FloatView::Text(s@),
        }
    }
}

/// The text under `key`.
pub open spec fn str_under(v: JsonView, key: Seq<char>) -> Option<Seq<char>> {
    match field(v, key) {
        Some(x) => text_of(x),
        None => None,
    }
}

/// The text under `key`.
pub fn get_str<'a>(v: &'a Json, key: &str) -> (r: Option<&'a str>)
    ensures
        text_view(r) == str_under(v@, key@),
{
    match v.get(key) {
        Some(x) => x.as_text(),
        None => None,
    }
}

/// An unsigned number: a JSON number, or the text of one.
pub open spec fn as_unsigned(x: JsonView) -> Option<u64> {
    match x {
        JsonView::Number(JsonNumber::Unsigned(n)) => Some(n),
        JsonView::Number(JsonNumber::Signed(i)) => if i >= 0 {
            Some(i as u64)
        } else {
            None
        },
        JsonView::Text(s) => match unsigned_value(trimmed(s), u64::MAX as nat) {
            Some(n) => Some(n as u64),
            None => None,
        },
        _ => None,
    }
}

/// The unsigned number under `key`.
pub open spec fn u64_under(v: JsonView, key: Seq<char>) -> Option<u64> {
    match field(v, key) {
        Some(x) => as_unsigned(x),
        None => None,
    }
}

/// The unsigned number under `key` (a number or a numeric text).
pub fn get_u64(v: &Json, key: &str) -> (r: Option<u64>)
    ensures
        r == u64_under(v@, key@),
{
    match v.get(key) {
        Some(x) => {
            if let Some(n) = x.as_number() {
                return match n {
                    JsonNumber::Unsigned(n) => Some(n),
                    JsonNumber::Signed(i) => if i >= 0 {
                        Some(i as u64)
                    } else {
                        None
                    },
                    JsonNumber::Float(_) => None,
                };
            }
            match x.as_text() {
                Some(s) => parse_u64(trim(s)),
                None => None,
            }
        },
        None => None,
    }
}

/// A signed number: a JSON number, or the text of one. One beyond the signed
/// range is read with its highest bit as the sign.
pub open spec fn as_signed(x: JsonView) -> Option<i64> {
    let negative = match x {
        JsonView::Number(JsonNumber::Signed(i)) => Some(i as int),
        JsonView::Text(s) => i64_value(trimmed(s)),
        _ => None,
    };
    match negative {
        Some(i) => Some(i as i64),
        None => match as_unsigned(x) {
            Some(n) => Some(resigned(n)),
            None => None,
        },
    }
}

/// The signed number under `key`.
pub open spec fn i64_under(v: JsonView, key: Seq<char>) -> Option<i64> {
    match field(v, key) {
        Some(x) => as_signed(x),
        None => None,
    }
}

/// The signed number under `key` (a number or a numeric text).
pub fn get_i64(v: &Json, key: &str) -> (r: Option<i64>)
    ensures
        r == i64_under(v@, key@),
{
    match v.get(key) {
        Some(x) => {
            if let Some(n) = x.as_number() {
                return match n {
                    JsonNumber::Unsigned(n) => Some(to_signed(n)),
                    JsonNumber::Signed(i) => Some(i),
                    JsonNumber::Float(_) => None,
                };
            }
            match x.as_text() {
                Some(s) => {
                    let t = trim(s);
                    match parse_i64(t) {
                        Some(i) => Some(i),
                        None => match parse_u64(t) {
                            Some(n) => Some(to_signed(n)),
                            None => None,
                        },
                    }
                },
                None => None,
            }
        },
        None => None,
    }
}

/// A double: a JSON number, or the text of one.
pub open spec fn as_float(x: JsonView) -> Option<FloatView> {
    match x {
        JsonView::Number(n) => Some(FloatView::Number(n)),
        JsonView::Text(s) => if float_text(trimmed(s)) {
            Some(FloatView::Text(trimmed(s)))
        } else {
            None
        },
        _ => None,
    }
}

fn to_float(x: &Json) -> (r: Option<FloatArg>)
    ensures
        match r {
            Some(f) => as_float(x@) == Some(f@),
            None => as_float(x@) is None,
        },
{
    if let Some(n) = x.as_number() {
        return Some(FloatArg::Number(n));
    }
    match x.as_text() {
        Some(s) => {
            let t = trim(s);
            if is_float_text(t) {
                Some(FloatArg::Text(t.to_owned()))
            } else {
                None
            }
        },
        None => None,
    }
}

/// The double under `key`.
pub open spec fn float_under(v: JsonView, key: Seq<char>) -> Option<FloatView> {
    match field(v, key) {
        Some(x) => as_float(x),
        None => None,
    }
}

/// The double under `key` (a number or a numeric text).
pub fn get_f64(v: &Json, key: &str) -> (r: Option<FloatArg>)
    ensures
        match r {
            Some(f) => float_under(v@, key@) == Some(f@),
            None => float_under(v@, key@) is None,
        },
{
    match v.get(key) {
        Some(x) => to_float(x),
        None => None,
    }
}

/// The truth value under `key`.
pub open spec fn bool_under(v: JsonView, key: Seq<char>) -> Option<bool> {
    match field(v, key) {
        Some(JsonView::Bool(b)) => Some(b),
        Some(JsonView::Text(s)) => Some(truthy(trimmed(s))),
        _ => None,
    }
}

/// The truth value under `key` (a truth value or a word for one).
pub fn get_bool(v: &Json, key: &str) -> (r: Option<bool>)
    ensures
        r == bool_under(v@, key@),
{
    match v.get(key) {
        Some(x) => {
            if let Some(b) = x.as_bool() {
                return Some(b);
            }
            match x.as_text() {
                Some(s) => Some(is_truthy(trim(s))),
                None => None,
            }
        },
        None => None,
    }
}

/// The doubles among the values, in order; what is none is passed over.
pub open spec fn floats_in(items: Seq<JsonView>) -> Seq<FloatView>
    decreases items.len(),
{
    if items.len() == 0 {
        Seq::empty()
    } else {
        let before = floats_in(items.drop_last());
        match as_float(items.last()) {
            Some(f) => before.push(f),
            None => before,
        }
    }
}

/// The doubles that the parts of a list write, in order; parts that write none
/// are passed over.
pub open spec fn floats_of(parts: Seq<Seq<char>>) -> Seq<FloatView>
    decreases parts.len(),
{
    if parts.len() == 0 {
        Seq::empty()
    } else {
        let before = floats_of(parts.drop_last());
        if float_text(trimmed(parts.last())) {
            before.push(FloatView::Text(trimmed(parts.last())))
        } else {
            before
        }
    }
}

/// The doubles under `key`: of a list, or of a comma-separated text.
pub open spec fn floats_under(v: JsonView, key: Seq<char>) -> Seq<FloatView> {
    match field(v, key) {
        Some(JsonView::Array(items)) => floats_in(items),
        Some(JsonView::Text(s)) => floats_of(split_on(s, ',')),
        _ => Seq::empty(),
    }
}

/// The values of doubles.
pub open spec fn float_views(args: Seq<FloatArg>) -> Seq<FloatView> {
    args.map_values(|a: FloatArg| a@)
}

/// The doubles under `key` (a list or a comma-separated text).
pub fn get_f64_vec(v: &Json, key: &str) -> (r: Vec<FloatArg>)
    ensures
        float_views(r@) == floats_under(v@, key@),
{
    let mut out: Vec<FloatArg> = Vec::new();
    assert(float_views(out@) =~= Seq::empty());
    if let Some(x) = v.get(key) {
        if let Some(items) = x.as_array() {
            let ghost all = items_view(items@);
            let mut i: usize = 0;
            while i < items.len()
                invariant
                    i <= items@.len(),
                    all == items_view(items@),
                    float_views(out@) == floats_in(all.take(i as int)),
                decreases items@.len() - i,
            {
                let ghost before = out@;
                proof {
                    assert(all.take(i + 1).drop_last() =~= all.take(i as int));
                    assert(all.take(i + 1).last() == items@[i as int]@);
                }
                if let Some(f) = to_float(&items[i]) {
                    let ghost added = f@;
                    out.push(f);
                    assert(float_views(out@) =~= float_views(before).push(added));
                }
                i += 1;
            }
            assert(all.take(i as int) =~= all);
        } else if let Some(s) = x.as_text() {
            let parts = split(s, ',');
            let ghost all = views(parts@);
            let mut i: usize = 0;
            while i < parts.len()
                invariant
                    i <= parts@.len(),
                    all == views(parts@),
                    float_views(out@) == floats_of(all.take(i as int)),
                decreases parts@.len() - i,
            {
                let ghost before = out@;
                proof {
                    assert(all.take(i + 1).drop_last() =~= all.take(i as int));
                    assert(all.take(i + 1).last() == parts@[i as int]@);
                }
                let t = trim(parts[i].as_str());
                if is_float_text(t) {
                    out.push(FloatArg::Text(t.to_owned()));
                    assert(float_views(out@) =~= float_views(before).push(FloatView::Text(t@)));
                }
                i += 1;
            }
            assert(all.take(i as int) =~= all);
        }
    }
    out
}

/// What a command asks of the memory.
#[derive(Debug, PartialEq, Eq)]
pub enum CliCall {
    Ingest { text: String },
    IngestSequential { text: String, prev_id: u64, seq_pos: Option<i64> },
    FollowSequence { start: u64, depth: usize, dir: String },
    Recall { query: String, limit: usize },
    RewardWithId { recall_id: u64, score: FloatArg },
    Reward { attributions: Vec<FloatArg>, score: FloatArg },
    Consolidate { aggressive: bool },
    Stats,
    Status,
    Setup,
    TrainReranker,
}

/// What a command asks of the memory, by value.
pub enum CallView {
    Ingest { text: Seq<char> },
    IngestSequential { text: Seq<char>, prev_id: u64, seq_pos: Option<i64> },
    FollowSequence { start: u64, depth: usize, dir: Seq<char> },
    Recall { query: Seq<char>, limit: usize },
    RewardWithId { recall_id: u64, score: FloatView },
    Reward { attributions: Seq<FloatView>, score: FloatView },
    Consolidate { aggressive: bool },
    Stats,
    Status,
    Setup,
    TrainReranker,
}

impl CliCall {
    pub open spec fn view(&self) -> CallView {
        match self {
            CliCall::Ingest { text } => CallView::Ingest { text: text@ },
            CliCall::IngestSequential { text, prev_id, seq_pos } => CallView::IngestSequential {
                text: text@,
                prev_id: *prev_id,
                seq_pos: *seq_pos,
            },
            CliCall::FollowSequence { start, depth, dir } => CallView::FollowSequence {
                start: *start,
                depth: *depth,
                dir: dir@,
            },
            CliCall::Recall { query, limit } => CallView::Recall { query: query@, limit: *limit },
            CliCall::RewardWithId { recall_id, score } => CallView::RewardWithId {
                recall_id: *recall_id,
                score: score@,
            },
            CliCall::Reward { attributions, score } => CallView::Reward {
                attributions: float_views(attributions@),
                score: score@,
            },
            CliCall::Consolidate { aggressive } => CallView::Consolidate { aggressive: *aggressive },
            CliCall::Stats => CallView::Stats,
            CliCall::Status => CallView::Status,
            CliCall::Setup => CallView::Setup,
            CliCall::TrainReranker => CallView::TrainReranker,
        }
    }
}

/// A number cut to the width of `usize`.
pub open spec fn narrowed(n: u64) -> usize {
    (n as int % (usize::MAX + 1)) as usize
}

fn to_usize(n: u64) -> (r: usize)
    ensures
        r == narrowed(n),
{
    if n <= usize::MAX as u64 {
        proof {
            vstd::arithmetic::div_mod::lemma_small_mod(n as nat, (usize::MAX + 1) as nat);
        }
        n as usize
    } else {
        (n % (usize::MAX as u64 + 1)) as usize
    }
}

/// A number read as signed, its highest bit as the sign.
pub open spec fn resigned(n: u64) -> i64 {
    if n <= i64::MAX {
        n as i64
    } else {
        (n - 0x1_0000_0000_0000_0000) as i64
    }
}

fn to_signed(n: u64) -> (r: i64)
    ensures
        r == resigned(n),
{
    if n <= i64::MAX as u64 {
        n as i64
    } else {
        -((u64::MAX - n) as i64) - 1
    }
}

/// The first of two that is there.
pub open spec fn first_of<T>(a: Option<T>, b: Option<T>) -> Option<T> {
    match a {
        Some(_) => a,
        None => b,
    }
}

/// The message of a recall without a query.
pub open spec fn needs_query() -> Seq<char> {
    "recall needs a query: engram recall <query...> [--limit N]"@
}

/// What a request object asks of the memory, or why it is refused.
pub open spec fn call_of(req: JsonView) -> Result<CallView, Seq<char>> {
    let command = match str_under(req, "command"@) {
        Some(c) => c,
        None => ""@,
    };
    if command == "ingest"@ {
        ingest_call(req)
    } else if command == "recall"@ {
        recall_call(req)
    } else if command == "reward"@ {
        reward_call(req)
    } else if command == "consolidate"@ {
        Ok(
            CallView::Consolidate {
                aggressive: match bool_under(req, "aggressive"@) {
                    Some(b) => b,
                    None => false,
                },
            },
        )
    } else if command == "stats"@ {
        Ok(CallView::Stats)
    } else if command == "status"@ {
        Ok(CallView::Status)
    } else if command == "setup"@ {
        Ok(CallView::Setup)
    } else if command == "train-reranker"@ {
        Ok(CallView::TrainReranker)
    } else {
        Err(
            "unknown command "@ + quoted(command)
                + " (ingest|recall|reward|consolidate|setup|stats|status|train-reranker)"@,
        )
    }
}

/// What an `ingest` request asks: a text, after another memory where one is
/// named.
pub open spec fn ingest_call(req: JsonView) -> Result<CallView, Seq<char>> {
    match str_under(req, "text"@) {
        None => Err("ingest needs {text}"@),
        Some(text) => if blank(text) {
            Err("ingest needs text: engram ingest <text...>"@)
        } else {
            match first_of(u64_under(req, "prev_id"@), u64_under(req, "seq"@)) {
                Some(prev_id) => Ok(
                    CallView::IngestSequential {
                        text,
                        prev_id,
                        seq_pos: first_of(i64_under(req, "seq_pos"@), i64_under(req, "pos"@)),
                    },
                ),
                None => Ok(CallView::Ingest { text }),
            }
        },
    }
}

/// What a `recall` request asks: a walk where it names a start, else a query.
pub open spec fn recall_call(req: JsonView) -> Result<CallView, Seq<char>> {
    match u64_under(req, "follow_seq"@) {
        Some(start) => {
            let depth = match first_of(u64_under(req, "depth"@), u64_under(req, "seq_depth"@)) {
                Some(n) => n,
                None => 10,
            };
            let dir = match first_of(str_under(req, "dir"@), str_under(req, "seq_dir"@)) {
                Some(d) => d,
                None => "down"@,
            };
            if is_direction(dir) {
                Ok(CallView::FollowSequence { start, depth: narrowed(depth), dir })
            } else {
                Err("--dir must be up|down|both"@)
            }
        },
        None => match str_under(req, "query"@) {
            None => Err(needs_query()),
            Some(query) => if blank(query) {
                Err(needs_query())
            } else {
                Ok(
                    CallView::Recall {
                        query,
                        limit: match u64_under(req, "limit"@) {
                            Some(n) => narrowed(n),
                            None => 5,
                        },
                    },
                )
            },
        },
    }
}

/// What a `reward` request asks: a score for a recall, or for attributions.
pub open spec fn reward_call(req: JsonView) -> Result<CallView, Seq<char>> {
    match float_under(req, "score"@) {
        None => Err("reward needs a score: engram reward <score> [attributions csv]"@),
        Some(score) => match u64_under(req, "recall_id"@) {
            Some(recall_id) => Ok(CallView::RewardWithId { recall_id, score }),
            None => Ok(
                CallView::Reward { attributions: floats_under(req, "attributions"@), score },
            ),
        },
    }
}

/// The value of a planned call.
pub open spec fn plan_view(r: Result<CliCall, String>) -> Result<CallView, Seq<char>> {
    match r {
        Ok(c) => Ok(c@),
        Err(e) => Err(e@),
    }
}

fn refused(message: &str) -> (r: Result<CliCall, String>)
    ensures
        plan_view(r) == Err::<CallView, Seq<char>>(message@),
{
    Err(message.to_owned())
}

fn plan_ingest(req: &Json) -> (r: Result<CliCall, String>)
    ensures
        plan_view(r) == ingest_call(req@),
{
    let text = match get_str(req, "text") {
        Some(t) => t,
        None => {
            return refused("ingest needs {text}");
        },
    };
    if is_blank(text) {
        return refused("ingest needs text: engram ingest <text...>");
    }
    let prev_id: Option<u64> = match get_u64(req, "prev_id") {
        Some(id) => Some(id),
        None => get_u64(req, "seq"),
    };
    let seq_pos: Option<i64> = match get_i64(req, "seq_pos") {
        Some(n) => Some(n),
        None => get_i64(req, "pos"),
    };
    match prev_id {
        Some(prev_id) => Ok(
            CliCall::IngestSequential { text: text.to_owned(), prev_id, seq_pos },
        ),
        None => Ok(CliCall::Ingest { text: text.to_owned() }),
    }
}

fn plan_recall(req: &Json) -> (r: Result<CliCall, String>)
    ensures
        plan_view(r) == recall_call(req@),
{
    if let Some(start) = get_u64(req, "follow_seq") {
        let depth: u64 = match get_u64(req, "depth") {
            Some(n) => n,
            None => match get_u64(req, "seq_depth") {
                Some(n) => n,
                None => 10,
            },
        };
        let dir = match get_str(req, "dir") {
            Some(d) => d,
            None => match get_str(req, "seq_dir") {
                Some(d) => d,
                None => "down",
            },
        };
        if !names_direction(dir) {
            return refused("--dir must be up|down|both");
        }
        return Ok(
            CliCall::FollowSequence { start, depth: to_usize(depth), dir: dir.to_owned() },
        );
    }
    match get_str(req, "query") {
        None => refused("recall needs a query: engram recall <query...> [--limit N]"),
        Some(query) => {
            if is_blank(query) {
                return refused("recall needs a query: engram recall <query...> [--limit N]");
            }
            let limit: usize = match get_u64(req, "limit") {
                Some(n) => to_usize(n),
                None => 5,
            };
            Ok(CliCall::Recall { query: query.to_owned(), limit })
        },
    }
}

fn plan_reward(req: &Json) -> (r: Result<CliCall, String>)
    ensures
        plan_view(r) == reward_call(req@),
{
    match get_f64(req, "score") {
        None => refused("reward needs a score: engram reward <score> [attributions csv]"),
        Some(score) => match get_u64(req, "recall_id") {
            Some(recall_id) => Ok(CliCall::RewardWithId { recall_id, score }),
            None => Ok(CliCall::Reward { attributions: get_f64_vec(req, "attributions"), score }),
        },
    }
}

/// The status of a refused request: a bad request.
pub const REFUSED: u16 = 400;

/// What a request object asks of the memory, or the status and the message of its
/// refusal.
pub fn execute_cli_value(req: &Json) -> (r: Result<CliCall, (u16, String)>)
    ensures
        match r {
            Ok(call) => call_of(req@) == Ok::<CallView, Seq<char>>(call@),
            Err((status, message)) => status == REFUSED && call_of(req@) == Err::<
                CallView,
                Seq<char>,
            >(message@),
        },
{
    match plan_call(req) {
        Ok(call) => Ok(call),
        Err(message) => Err((REFUSED, message)),
    }
}

fn plan_call(req: &Json) -> (r: Result<CliCall, String>)
    ensures
        plan_view(r) == call_of(req@),
{
    let command = match get_str(req, "command") {
        Some(c) => c,
        None => "",
    };
    if same(command, "ingest") {
        plan_ingest(req)
    } else if same(command, "recall") {
        plan_recall(req)
    } else if same(command, "reward") {
        plan_reward(req)
    } else if same(command, "consolidate") {
        let aggressive = match get_bool(req, "aggressive") {
            Some(b) => b,
            None => false,
        };
        Ok(CliCall::Consolidate { aggressive })
    } else if same(command, "stats") {
        Ok(CliCall::Stats)
    } else if same(command, "status") {
        Ok(CliCall::Status)
    } else if same(command, "setup") {
        Ok(CliCall::Setup)
    } else if same(command, "train-reranker") {
        Ok(CliCall::TrainReranker)
    } else {
        let shown = quote(command);
        Err(
            "unknown command ".to_owned().concat(shown.as_str()).concat(
                " (ingest|recall|reward|consolidate|setup|stats|status|train-reranker)",
            ),
        )
    }
}

/// A successful answer.
pub open spec fn ok_view(data: JsonView) -> JsonView {
    JsonView::Object(no_fields().push(("ok"@, JsonView::Bool(true))).push(("data"@, data)))
}

/// A failed answer.
pub open spec fn error_view(message: Seq<char>) -> JsonView {
    JsonView::Object(
        no_fields().push(("ok"@, JsonView::Bool(false))).push(
            ("error"@, JsonView::Text(message)),
        ),
    )
}

/// Wraps the data of an answer.
pub fn ok_envelope(data: Json) -> (r: Json)
    ensures
        r@ == ok_view(data@),
{
    ObjectBuilder::new().with("ok", Json::Bool(true)).with("data", data).done()
}

/// Wraps the message of a failure.
pub fn error_envelope(message: &str) -> (r: Json)
    ensures
        r@ == error_view(message@),
{
    ObjectBuilder::new().with("ok", Json::Bool(false)).with("error", Json::text(message)).done()
}

/// The answer of the liveness probe. It touches no data.
pub fn health_answer() -> (r: Json)
    ensures
        r@ == ok_view(JsonView::Object(no_fields().push(("status"@, JsonView::Text("up"@))))),
{
    ok_envelope(ObjectBuilder::new().with("status", Json::text("up")).done())
}

/// What the body of a command call asks of the memory, or why it is refused.
pub fn dispatch_cli_rpc(body: &[u8]) -> (r: Result<CliCall, String>)
    ensures
        plan_view(r) == match written_in(body@) {
            Ok(req) => call_of(req),
            Err(words) => Err("bad json: "@ + words),
        },
{
    match read_json_bytes(body) {
        Ok(req) => plan_call(&req),
        Err(words) => Err("bad json: ".to_owned().concat(words.as_str())),
    }
}

/// What a request to a mirrored path leads to.
#[derive(Debug)]
pub enum MirrorPlan {
    /// Ask this of the memory.
    Call(CliCall),
    /// Answer with the help document.
    Help,
    /// The request cannot be read: answer with this status and message.
    Refuse { status: u16, message: String },
    /// The command is refused: answer with this status and message.
    Reject { status: u16, message: String },
}

/// The fields that a query gives: its pairs, decoded, all texts.
pub open spec fn query_fields(query: Option<Seq<char>>) -> Seq<(Seq<char>, JsonView)> {
    query_pairs(query).map_values(
        |p: (Seq<char>, Seq<char>)| (decoded(p.0), JsonView::Text(decoded(p.1))),
    )
}

/// The fields of a query as an object.
pub fn query_to_json(query: Option<&str>) -> (r: ObjectBuilder)
    ensures
        crate::json::entries_view(r.entries@) == query_fields(text_view(query)),
{
    let pairs = parse_query(query);
    let ghost all = query_fields(text_view(query));
    let mut out = ObjectBuilder::new();
    let mut i: usize = 0;
    assert(all.take(0) =~= no_fields());
    while i < pairs.len()
        invariant
            i <= pairs@.len(),
            pair_views(pairs@) == query_pairs(text_view(query)),
            all == query_fields(text_view(query)),
            crate::json::entries_view(out.entries@) == all.take(i as int),
        decreases pairs@.len() - i,
    {
        let ghost before = all.take(i as int);
        proof {
            assert(pair_views(pairs@)[i as int] == (pairs@[i as int].0@, pairs@[i as int].1@));
            assert(all[i as int] == (
                decoded(pairs@[i as int].0@),
                JsonView::Text(decoded(pairs@[i as int].1@)),
            ));
        }
        let key = decode(pairs[i].0.as_str());
        let value = decode(pairs[i].1.as_str());
        out = out.with(key.as_str(), Json::text(value.as_str()));
        i += 1;
        assert(all.take(i as int) =~= before.push(all[i - 1]));
    }
    assert(pair_views(pairs@).len() == pairs@.len());
    assert(all.take(i as int) =~= all);
    out
}

/// The fields that a body adds, or why it is refused. An empty body adds none.
pub open spec fn body_fields(body: Seq<u8>) -> Result<Seq<(Seq<char>, JsonView)>, Seq<char>> {
    if body.len() == 0 {
        Ok(no_fields())
    } else {
        match written_in(body) {
            Ok(JsonView::Object(entries)) => Ok(entries),
            Ok(_) => Err("body must be a JSON object"@),
            Err(words) => Err("bad json: "@ + words),
        }
    }
}

/// What the fields of a mirrored command ask of the memory.
pub open spec fn fields_call(
    fields: Seq<(Seq<char>, JsonView)>,
    command: Seq<char>,
) -> Result<CallView, Seq<char>> {
    call_of(JsonView::Object(fields.push(("command"@, JsonView::Text(command)))))
}

/// `plan` is what a request to a mirrored path leads to.
pub open spec fn mirror_plan_is(
    command: Seq<char>,
    method: Method,
    query: Option<Seq<char>>,
    body: Seq<u8>,
    plan: MirrorPlan,
) -> bool {
    if method != Method::Get && method != Method::Post {
        plan matches MirrorPlan::Refuse { status, message } && status == 405 && message@
            == "method not allowed (use GET or POST)"@
    } else {
        let added = if method == Method::Post {
            body_fields(body)
        } else {
            Ok(no_fields())
        };
        match added {
            Err(words) => plan matches MirrorPlan::Refuse { status, message } && status == 400
                && message@ == words,
            Ok(fields) => if command == "help"@ {
                plan is Help
            } else {
                match fields_call(query_fields(query) + fields, command) {
                    Ok(call) => plan matches MirrorPlan::Call(c) && c@ == call,
                    Err(words) => plan matches MirrorPlan::Reject { status, message } && status
                        == REFUSED && message@ == words,
                }
            },
        }
    }
}

/// Decides what a request to a mirrored path leads to. Fields of a body count
/// before those of the query, and the path's command before both.
pub fn handle_mirror(command: &str, method: Method, query: Option<&str>, body: &[u8]) -> (r:
    MirrorPlan)
    ensures
        mirror_plan_is(command@, method, text_view(query), body@, r),
{
    if method != Method::Get && method != Method::Post {
        return MirrorPlan::Refuse {
            status: 405,
            message: "method not allowed (use GET or POST)".to_owned(),
        };
    }
    let mut payload = query_to_json(query);
    let ghost fields = query_fields(text_view(query));
    let ghost mut added = no_fields();
    assert(fields + no_fields() =~= fields);
    if method == Method::Post && body.len() > 0 {
        match read_json_bytes(body) {
            Ok(value) => match value.as_entries() {
                Some(entries) => {
                    let ghost all = crate::json::entries_view(entries@);
                    let mut i: usize = 0;
                    assert(fields + all.take(0) =~= fields);
                    while i < entries.len()
                        invariant
                            i <= entries@.len(),
                            all == crate::json::entries_view(entries@),
                            crate::json::entries_view(payload.entries@) == fields + all.take(
                                i as int,
                            ),
                        decreases entries@.len() - i,
                    {
                        payload = payload.with(entries[i].0.as_str(), entries[i].1.copy());
                        i += 1;
                        assert(fields + all.take(i as int) =~= (fields + all.take(i - 1)).push(
                            all[i - 1],
                        ));
                    }
                    assert(all.take(i as int) =~= all);
                    proof {
                        added = all;
                    }
                },
                None => {
                    return MirrorPlan::Refuse {
                        status: 400,
                        message: "body must be a JSON object".to_owned(),
                    };
                },
            },
            Err(words) => {
                return MirrorPlan::Refuse {
                    status: 400,
                    message: "bad json: ".to_owned().concat(words.as_str()),
                };
            },
        }
    }
    assert(crate::json::entries_view(payload.entries@) == fields + added);
    if same(command, "help") {
        return MirrorPlan::Help;
    }
    let req = payload.with("command", Json::text(command)).done();
    match execute_cli_value(&req) {
        Ok(call) => MirrorPlan::Call(call),
        Err((status, message)) => MirrorPlan::Reject { status, message },
    }
}

/// The status of a call that failed: a feedback log that cannot be used is the
/// caller's affair, anything else is the memory's.
pub open spec fn failure_status_of(call: CallView) -> u16 {
    if call is TrainReranker {
        400
    } else {
        500
    }
}

/// The status of a call that failed.
pub fn failure_status(call: &CliCall) -> (r: u16)
    ensures
        r == failure_status_of(call@),
{
    match call {
        CliCall::TrainReranker => 400,
        _ => 500,
    }
}

/// The status and the envelope of an answer: what the call gave, or the status of
/// its failure with the message.
pub fn mirror_answer(failed: u16, out: Result<Json, String>) -> (r: (u16, Json))
    ensures
        match out {
            Ok(data) => r.0 == 200 && r.1@ == ok_view(data@),
            Err(message) => r.0 == failed && r.1@ == error_view(message@),
        },
{
    match out {
        Ok(data) => (200, ok_envelope(data)),
        Err(message) => (failed, error_envelope(message.as_str())),
    }
}

/// A mirrored path runs its own command: no field of the query or the body can
/// name another.
pub proof fn path_names_the_command(fields: Seq<(Seq<char>, JsonView)>, command: Seq<char>)
    ensures
        str_under(
            JsonView::Object(fields.push(("command"@, JsonView::Text(command)))),
            "command"@,
        ) == Some(command),
{
}

/// A field of the body counts before a field of the query with the same key.
pub proof fn body_counts_before_query(
    query: Seq<(Seq<char>, JsonView)>,
    body: Seq<(Seq<char>, JsonView)>,
    key: Seq<char>,
)
    ensures
        field(JsonView::Object(query + body), key) == first_of(
            field(JsonView::Object(body), key),
            field(JsonView::Object(query), key),
        ),
    decreases body.len(),
{
    if body.len() == 0 {
        assert(query + body =~= query);
    } else {
        assert((query + body).drop_last() =~= query + body.drop_last());
        body_counts_before_query(query, body.drop_last(), key);
    }
}

/// A request object with the same fields asks the same.
proof fn lemma_same_fields_same_call(a: JsonView, b: JsonView)
    requires
        forall|key: Seq<char>| key.len() > 0 ==> #[trigger] field(a, key) == field(b, key),
    ensures
        call_of(a) == call_of(b),
{
    reveal_strlit("command");
    reveal_strlit("text");
    reveal_strlit("prev_id");
    reveal_strlit("seq");
    reveal_strlit("seq_pos");
    reveal_strlit("pos");
    reveal_strlit("follow_seq");
    reveal_strlit("depth");
    reveal_strlit("seq_depth");
    reveal_strlit("dir");
    reveal_strlit("seq_dir");
    reveal_strlit("query");
    reveal_strlit("limit");
    reveal_strlit("score");
    reveal_strlit("recall_id");
    reveal_strlit("attributions");
    reveal_strlit("aggressive");
    assert(field(a, "command"@) == field(b, "command"@));
    assert(ingest_call(a) == ingest_call(b)) by {
        assert(field(a, "text"@) == field(b, "text"@));
        assert(field(a, "prev_id"@) == field(b, "prev_id"@));
        assert(field(a, "seq"@) == field(b, "seq"@));
        assert(field(a, "seq_pos"@) == field(b, "seq_pos"@));
        assert(field(a, "pos"@) == field(b, "pos"@));
    }
    assert(recall_call(a) == recall_call(b)) by {
        assert(field(a, "follow_seq"@) == field(b, "follow_seq"@));
        assert(field(a, "depth"@) == field(b, "depth"@));
        assert(field(a, "seq_depth"@) == field(b, "seq_depth"@));
        assert(field(a, "dir"@) == field(b, "dir"@));
        assert(field(a, "seq_dir"@) == field(b, "seq_dir"@));
        assert(field(a, "query"@) == field(b, "query"@));
        assert(field(a, "limit"@) == field(b, "limit"@));
    }
    assert(reward_call(a) == reward_call(b)) by {
        assert(field(a, "score"@) == field(b, "score"@));
        assert(field(a, "recall_id"@) == field(b, "recall_id"@));
        assert(field(a, "attributions"@) == field(b, "attributions"@));
    }
    assert(field(a, "aggressive"@) == field(b, "aggressive"@));
}

/// Fields ask the same of the memory whether the query of a `GET` gives them or
/// the body of a `POST` without a query.
pub proof fn query_and_body_agree(fields: Seq<(Seq<char>, JsonView)>, command: Seq<char>)
    ensures
        fields_call(fields + no_fields(), command) == fields_call(
            query_fields(None) + fields,
            command,
        ),
{
    broadcast use lemma_lookup_push;

    let named = ("command"@, JsonView::Text(command));
    assert(fields + no_fields() =~= fields);
    let bare = query_fields(None);
    plain_texts_stay(Seq::empty());
    assert(bare.len() == 1 && bare[0].0.len() == 0);
    let a = JsonView::Object(fields.push(named));
    let b = JsonView::Object((bare + fields).push(named));
    assert forall|key: Seq<char>| key.len() > 0 implies #[trigger] field(a, key) == field(
        b,
        key,
    ) by {
        body_counts_before_query(bare, fields, key);
        assert(bare.last().0 != key);
        assert(field(JsonView::Object(bare.drop_last()), key) is None);
        assert(field(JsonView::Object(bare), key) is None);
    }
    lemma_same_fields_same_call(a, b);
}

/// The data of a stored memory.
pub fn ingest_data(engram_id: u64) -> (r: Json)
    ensures
        r@ == JsonView::Object(
            no_fields().push(("engram_id"@, JsonView::Number(JsonNumber::Unsigned(engram_id)))),
        ),
{
    ObjectBuilder::new().with("engram_id", Json::number(engram_id)).done()
}

/// Ids as JSON numbers.
pub open spec fn id_list(ids: Seq<u64>) -> Seq<JsonView> {
    ids.map_values(|id: u64| JsonView::Number(JsonNumber::Unsigned(id)))
}

/// The data of a walk along a sequence.
pub fn chain_data(chain: &Vec<u64>, start: u64, depth: usize, dir: &str) -> (r: Json)
    ensures
        r@ == JsonView::Object(
            no_fields().push(("sequential_chain"@, JsonView::Array(id_list(chain@)))).push(
                ("start_id"@, JsonView::Number(JsonNumber::Unsigned(start))),
            ).push(
                ("depth"@, JsonView::Number(JsonNumber::Unsigned(depth as u64))),
            ).push(("dir"@, JsonView::Text(dir@))),
        ),
{
    let mut ids: Vec<Json> = Vec::new();
    let mut i: usize = 0;
    while i < chain.len()
        invariant
            i <= chain@.len(),
            ids@.len() == i,
            forall|j: int|
                0 <= j < i ==> (#[trigger] ids@[j])@ == JsonView::Number(
                    JsonNumber::Unsigned(chain@[j]),
                ),
        decreases chain@.len() - i,
    {
        ids.push(Json::number(chain[i]));
        i += 1;
    }
    assert(items_view(ids@) =~= id_list(chain@));
    ObjectBuilder::new().with("sequential_chain", list(ids)).with(
        "start_id",
        Json::number(start),
    ).with("depth", Json::number(depth as u64)).with("dir", Json::text(dir)).done()
}

/// The data of a recall. Without results it says so, and there is nothing to
/// reward.
pub open spec fn recall_view(results: Seq<JsonView>, recall_id: Option<u64>) -> JsonView {
    if results.len() == 0 {
        JsonView::Object(
            no_fields().push(("results"@, JsonView::Array(Seq::empty()))).push(
                ("recall_id"@, JsonView::Null),
            ).push(("message"@, JsonView::Text("I don't know"@))),
        )
    } else {
        JsonView::Object(
            no_fields().push(("results"@, JsonView::Array(results))).push(
                ("recall_id"@, number_or_null(recall_id)),
            ),
        )
    }
}

/// The data of a recall.
pub fn recall_data(results: &Vec<ResonanceResult>, recall_id: Option<u64>) -> (r: Json)
    ensures
        r@ == recall_view(results_view(results@), recall_id),
{
    let shown = results_data(results);
    assert(shown@.len() == items_view(shown@).len());
    if results.len() == 0 {
        assert(items_view(shown@) =~= Seq::empty());
        ObjectBuilder::new().with("results", list(shown)).with("recall_id", Json::Null).with(
            "message",
            Json::text("I don't know"),
        ).done()
    } else {
        ObjectBuilder::new().with("results", list(shown)).with(
            "recall_id",
            optional_number(recall_id),
        ).done()
    }
}

/// The data of an applied reward.
pub fn reward_data() -> (r: Json)
    ensures
        r@ == JsonView::Object(no_fields().push(("applied"@, JsonView::Bool(true)))),
{
    ObjectBuilder::new().with("applied", Json::Bool(true)).done()
}

/// A consolidation report as JSON.
pub open spec fn report_view(report: ConsolidationReport) -> JsonView {
    JsonView::Object(
        no_fields().push(("pruned"@, JsonView::Number(JsonNumber::Unsigned(report.pruned)))).push(
            ("compressed"@, JsonView::Number(JsonNumber::Unsigned(report.compressed))),
        ).push(("promoted"@, JsonView::Number(JsonNumber::Unsigned(report.promoted)))).push(
            (
                "contradictions_linked"@,
                JsonView::Number(JsonNumber::Unsigned(report.contradictions_linked)),
            ),
        ),
    )
}

/// A consolidation report as JSON.
pub fn report_data(report: ConsolidationReport) -> (r: Json)
    ensures
        r@ == report_view(report),
{
    ObjectBuilder::new().with("pruned", Json::number(report.pruned)).with(
        "compressed",
        Json::number(report.compressed),
    ).with("promoted", Json::number(report.promoted)).with(
        "contradictions_linked",
        Json::number(report.contradictions_linked),
    ).done()
}

/// Aggregate counts as JSON.
pub open spec fn stats_view(stats: MemoryStats) -> JsonView {
    JsonView::Object(
        no_fields().push(
            ("total_engrams"@, JsonView::Number(JsonNumber::Unsigned(stats.total_engrams))),
        ).push(
            ("contradictions"@, JsonView::Number(JsonNumber::Unsigned(stats.contradictions))),
        ).push(("concepts"@, JsonView::Number(JsonNumber::Unsigned(stats.concepts)))).push(
            ("identities"@, JsonView::Number(JsonNumber::Unsigned(stats.identities))),
        ),
    )
}

/// Aggregate counts as JSON.
pub fn stats_data(stats: MemoryStats) -> (r: Json)
    ensures
        r@ == stats_view(stats),
{
    ObjectBuilder::new().with("total_engrams", Json::number(stats.total_engrams)).with(
        "contradictions",
        Json::number(stats.contradictions),
    ).with("concepts", Json::number(stats.concepts)).with(
        "identities",
        Json::number(stats.identities),
    ).done()
}

/// The data of a status request to the daemon: the store, what was learned, and
/// how each provider answered.
pub fn status_data(stats: MemoryStats, learning: Json, embedding: Json, llm: Json) -> (r: Json)
    ensures
        r@ == JsonView::Object(
            no_fields().push(
                (
                    "storage"@,
                    JsonView::Object(
                        no_fields().push(("ok"@, JsonView::Bool(true))).push(
                            ("stats"@, stats_view(stats)),
                        ),
                    ),
                ),
            ).push(("learning"@, learning@)).push(("embedding"@, embedding@)).push(
                ("llm"@, llm@),
            ),
        ),
{
    let storage = ObjectBuilder::new().with("ok", Json::Bool(true)).with(
        "stats",
        stats_data(stats),
    ).done();
    ObjectBuilder::new().with("storage", storage).with("learning", learning).with(
        "embedding",
        embedding,
    ).with("llm", llm).done()
}

/// The data of a finished setup.
pub fn setup_data(dimension: usize, message: &str) -> (r: Json)
    ensures
        r@ == JsonView::Object(
            no_fields().push(
                ("dimension"@, JsonView::Number(JsonNumber::Unsigned(dimension as u64))),
            ).push(("message"@, JsonView::Text(message@))),
        ),
{
    ObjectBuilder::new().with("dimension", Json::number(dimension as u64)).with(
        "message",
        Json::text(message),
    ).done()
}

/// Every tool on every surface, as JSON text.
pub const TOOLS_CATALOG: &'static str = "[{\"endpoint\":\"/mcp\",\"tools\":[{\"name\":\"recall\",\"params\":\"query*, limit?=5, type?=auto, since?=all\"},{\"name\":\"store\",\"params\":\"content*, importance?=auto, type?=auto\"},{\"name\":\"contradiction_check\",\"params\":\"claim*\"},{\"name\":\"consolidate\",\"params\":\"aggressive?=false\"}],\"transport\":\"mcp-streamable-http\"},{\"endpoint\":\"/mcp/tools\",\"tools\":[{\"name\":\"engram_ingest\",\"params\":\"text*, prev_id?, seq_pos? (sequential TemporalSequence)\"},{\"name\":\"engram_recall\",\"params\":\"query*, limit?=10, follow_seq?, seq_depth?, seq_dir? (sequential walk)\"},{\"name\":\"engram_reward\",\"params\":\"attributions?, score*, recall_id?\"},{\"name\":\"engram_consolidate\",\"params\":\"none\"},{\"name\":\"engram_stats\",\"params\":\"none\"},{\"name\":\"engram_status\",\"params\":\"none\"},{\"name\":\"help\",\"params\":\"tool?\"}],\"transport\":\"mcp-streamable-http\"},{\"endpoint\":\"/mcp/cli\",\"tools\":[{\"name\":\"engram_cli\",\"params\":\"command*, text?, query?, limit?, prev_id?, seq_pos?, follow_seq?, seq_depth?, seq_dir?, attributions?, score?, recall_id?, args? (commands: help, ingest, recall, reward, consolidate, stats)\"}],\"transport\":\"mcp-streamable-http\"}]";

/// The endpoints and their fields, as JSON text.
pub const MIRROR_HELP: &'static str = "{\"capability\":\"episodic memory with optional sequential story chains (TemporalSequence); every recall must be rewarded via reward (use recall_id from recall); recall answers \\\"I don't know\\\" when nothing is relevant; learning is automatic (just recall+reward)\",\"commands\":{\"consolidate\":{\"fields\":{\"aggressive?\":\"bool=false\"},\"methods\":[\"GET\",\"POST\"],\"returns\":{\"compressed\":\"u64\",\"contradictions_linked\":\"u64\",\"promoted\":\"u64\",\"pruned\":\"u64\"}},\"health\":{\"fields\":{},\"methods\":[\"GET\"],\"returns\":{\"status\":\"up\"}},\"help\":{\"fields\":{},\"methods\":[\"GET\",\"POST\"],\"returns\":\"this document\"},\"ingest\":{\"fields\":{\"prev_id?\":\"u64 (== --seq)\",\"seq_pos?\":\"i64 (== --seq-pos)\",\"text*\":\"string\"},\"methods\":[\"GET\",\"POST\"],\"returns\":{\"engram_id\":\"u64\"}},\"recall\":{\"fields\":{\"depth?\":\"usize=10 (== --depth)\",\"dir?\":\"up|down|both=down (== --dir)\",\"follow_seq?\":\"u64 (== --follow-seq)\",\"limit?\":\"usize=5\",\"query*\":\"string\"},\"methods\":[\"GET\",\"POST\"],\"returns\":{\"recall_id\":\"u64|null\",\"results\":\"[...]\"}},\"reward\":{\"fields\":{\"attributions?\":\"[f64] or csv\",\"recall_id?\":\"u64\",\"score*\":\"f64 -1.0..1.0\"},\"methods\":[\"GET\",\"POST\"],\"returns\":{\"applied\":true}},\"setup\":{\"fields\":{},\"methods\":[\"GET\",\"POST\"],\"returns\":{\"dimension\":\"usize\",\"message\":\"string\"}},\"stats\":{\"fields\":{},\"methods\":[\"GET\",\"POST\"],\"returns\":{\"concepts\":\"u64\",\"contradictions\":\"u64\",\"identities\":\"u64\",\"total_engrams\":\"u64\"}},\"status\":{\"fields\":{},\"methods\":[\"GET\",\"POST\"],\"returns\":{\"embedding\":\"object\",\"learning\":\"object\",\"llm\":\"object\",\"storage\":\"object\"}},\"train-reranker\":{\"fields\":{},\"methods\":[\"GET\",\"POST\"],\"returns\":{\"model\":\"string\",\"pairs\":\"usize\",\"trained_samples\":\"u64\"}}},\"not_exposed\":[\"serve\",\"mcp-server\",\"mcp-tools\"],\"note\":\"learning is load-bearing: recall returns recall_id; reward it (score -1.0..1.0) exactly like the local CLI. Unrewarded remote recall == unrewarded local recall.\",\"response\":\"{\\\"ok\\\": true, \\\"data\\\": <cli-json>} | {\\\"ok\\\": false, \\\"error\\\": \\\"<cli message>\\\"}\",\"usage\":\"engram <command> [args]  |  HTTP: <METHOD> http://<host>:4545/<command>\"}";

/// Every tool on every surface, as JSON text.
pub fn tools_catalog() -> (r: &'static str)
    ensures
        r@ == TOOLS_CATALOG@,
{
    TOOLS_CATALOG
}

/// The endpoints and their fields, as JSON text.
pub fn mirror_help() -> (r: &'static str)
    ensures
        r@ == MIRROR_HELP@,
{
    MIRROR_HELP
}

/// A number of a request reads the same from JSON and from the text of its digits,
/// and no number below zero is read as unsigned.
pub proof fn numbers_read_from_texts(n: u64, i: i64)
    ensures
        as_unsigned(JsonView::Number(JsonNumber::Unsigned(n))) == Some(n),
        as_unsigned(JsonView::Text(decimal(n as nat))) == Some(n),
        as_unsigned(JsonView::Number(JsonNumber::Signed(i))) is Some <==> i >= 0,
        as_signed(JsonView::Number(JsonNumber::Signed(i))) == Some(i),
        n <= i64::MAX ==> as_signed(JsonView::Number(JsonNumber::Unsigned(n))) == Some(n as i64),
{
    numerals_are_trimmed(n as nat);
    decimal_reads_back(n as nat, u64::MAX as nat);
}

/// The doubles of a list are its items that write one, in order.
pub proof fn every_double_is_read(items: Seq<JsonView>)
    ensures
        floats_in(items) == items.filter(|x: JsonView| as_float(x) is Some).map_values(
            |x: JsonView| as_float(x)->0,
        ),
    decreases items.len(),
{
    reveal(Seq::filter);
    let keeps = |x: JsonView| as_float(x) is Some;
    let reads = |x: JsonView| as_float(x)->0;
    if items.len() > 0 {
        every_double_is_read(items.drop_last());
    }
    assert(floats_in(items) =~= items.filter(keeps).map_values(reads));
}

/// The doubles of a comma-separated text are its parts that write one, in order.
pub proof fn every_part_that_is_a_double_is_read(parts: Seq<Seq<char>>)
    ensures
        floats_of(parts) == parts.filter(|p: Seq<char>| float_text(trimmed(p))).map_values(
            |p: Seq<char>| FloatView::Text(trimmed(p)),
        ),
    decreases parts.len(),
{
    reveal(Seq::filter);
    let keeps = |p: Seq<char>| float_text(trimmed(p));
    let reads = |p: Seq<char>| FloatView::Text(trimmed(p));
    if parts.len() > 0 {
        every_part_that_is_a_double_is_read(parts.drop_last());
    }
    assert(floats_of(parts) =~= parts.filter(keeps).map_values(reads));
}

proof fn lemma_commands_differ()
    ensures
        "ingest"@ != "recall"@,
        "ingest"@ != "reward"@,
        "recall"@ != "reward"@,
        "ingest"@.len() == 6,
        "recall"@.len() == 6,
        "reward"@.len() == 6,
        "consolidate"@.len() == 11,
        "stats"@.len() == 5,
        "status"@.len() == 6,
        "status"@ != "ingest"@,
        "status"@ != "recall"@,
        "status"@ != "reward"@,
        "setup"@.len() == 5,
        "setup"@ != "stats"@,
        "train-reranker"@.len() == 14,
{
    reveal_strlit("ingest");
    reveal_strlit("recall");
    reveal_strlit("reward");
    reveal_strlit("consolidate");
    reveal_strlit("stats");
    reveal_strlit("status");
    reveal_strlit("setup");
    reveal_strlit("train-reranker");
    assert("ingest"@[0] == 'i');
    assert("recall"@[2] == 'c');
    assert("reward"@[2] == 'w');
    assert("recall"@[0] == 'r');
    assert("reward"@[0] == 'r');
    assert("status"@[0] == 's');
    assert("stats"@[1] == 't');
    assert("setup"@[1] == 'e');
}

/// A text is stored as it stands: on its own where the request names no memory
/// before it, and else after that one, at the position it names. Blank texts are
/// refused.
pub proof fn ingests_store_the_text(req: JsonView, text: Seq<char>)
    requires
        str_under(req, "command"@) == Some("ingest"@),
        str_under(req, "text"@) == Some(text),
    ensures
        blank(text) <==> call_of(req) is Err,
        !blank(text) && u64_under(req, "prev_id"@) is None && u64_under(req, "seq"@) is None
            ==> call_of(req) == Ok::<CallView, Seq<char>>(CallView::Ingest { text }),
        !blank(text) ==> (u64_under(req, "prev_id"@) matches Some(n) ==> (call_of(req) matches Ok(
            CallView::IngestSequential { text: t, prev_id, seq_pos },
        ) && t == text && prev_id == n && (i64_under(req, "seq_pos"@) is Some ==> seq_pos
            == i64_under(req, "seq_pos"@)))),
        !blank(text) && u64_under(req, "prev_id"@) is None ==> (u64_under(req, "seq"@) matches Some(
            n,
        ) ==> (call_of(req) matches Ok(CallView::IngestSequential { prev_id, .. }) && prev_id
            == n)),
{
    lemma_commands_differ();
}

/// A recall asks its own query, for five memories or as many as it names; a blank
/// query is refused.
pub proof fn recalls_ask_their_query(req: JsonView, query: Seq<char>)
    requires
        str_under(req, "command"@) == Some("recall"@),
        u64_under(req, "follow_seq"@) is None,
        str_under(req, "query"@) == Some(query),
    ensures
        blank(query) <==> call_of(req) is Err,
        !blank(query) && u64_under(req, "limit"@) is None ==> call_of(req) == Ok::<
            CallView,
            Seq<char>,
        >(CallView::Recall { query, limit: 5 }),
        !blank(query) ==> (u64_under(req, "limit"@) matches Some(n) ==> n <= usize::MAX ==> call_of(
            req,
        ) == Ok::<CallView, Seq<char>>(CallView::Recall { query, limit: n as usize })),
{
    lemma_commands_differ();
    if let Some(n) = u64_under(req, "limit"@) {
        if n <= usize::MAX {
            vstd::arithmetic::div_mod::lemma_small_mod(n as nat, (usize::MAX + 1) as nat);
        }
    }
}

/// A recall that names a start is a walk from there, whatever its query: ten steps
/// deep or as deep as it says, down or the way it says; any other way is refused.
pub proof fn named_starts_are_walked_from(req: JsonView, start: u64)
    requires
        str_under(req, "command"@) == Some("recall"@),
        u64_under(req, "follow_seq"@) == Some(start),
        str_under(req, "seq_dir"@) is None,
        u64_under(req, "seq_depth"@) is None,
    ensures
        str_under(req, "dir"@) is None && u64_under(req, "depth"@) is None ==> call_of(req) == Ok::<
            CallView,
            Seq<char>,
        >(CallView::FollowSequence { start, depth: 10, dir: "down"@ }),
        str_under(req, "dir"@) matches Some(d) ==> if d == "up"@ || d == "down"@ || d == "both"@ {
            call_of(req) matches Ok(CallView::FollowSequence { start: s, dir, .. }) && s == start
                && dir == d
        } else {
            call_of(req) is Err
        },
        str_under(req, "dir"@) is None ==> (u64_under(req, "depth"@) matches Some(n) ==> n
            <= usize::MAX ==> call_of(req) == Ok::<CallView, Seq<char>>(
            CallView::FollowSequence { start, depth: n as usize, dir: "down"@ },
        )),
{
    lemma_commands_differ();
    vstd::arithmetic::div_mod::lemma_small_mod(10, (usize::MAX + 1) as nat);
    if let Some(n) = u64_under(req, "depth"@) {
        if n <= usize::MAX {
            vstd::arithmetic::div_mod::lemma_small_mod(n as nat, (usize::MAX + 1) as nat);
        }
    }
}

/// A reward gives its score to the recall it names, and else to its attributions;
/// without a score it is refused.
pub proof fn rewards_go_to_their_recall(req: JsonView)
    requires
        str_under(req, "command"@) == Some("reward"@),
    ensures
        float_under(req, "score"@) is None <==> call_of(req) is Err,
        float_under(req, "score"@) matches Some(f) ==> match u64_under(req, "recall_id"@) {
            Some(id) => call_of(req) == Ok::<CallView, Seq<char>>(
                CallView::RewardWithId { recall_id: id, score: f },
            ),
            None => call_of(req) == Ok::<CallView, Seq<char>>(
                CallView::Reward { attributions: floats_under(req, "attributions"@), score: f },
            ),
        },
{
    lemma_commands_differ();
}

/// The other commands ask what they are named for, and consolidation is aggressive
/// only where the request says so.
pub proof fn commands_ask_what_they_are_named_for(req: JsonView, command: Seq<char>)
    requires
        str_under(req, "command"@) == Some(command),
    ensures
        command == "stats"@ ==> call_of(req) == Ok::<CallView, Seq<char>>(CallView::Stats),
        command == "status"@ ==> call_of(req) == Ok::<CallView, Seq<char>>(CallView::Status),
        command == "setup"@ ==> call_of(req) == Ok::<CallView, Seq<char>>(CallView::Setup),
        command == "train-reranker"@ ==> call_of(req) == Ok::<CallView, Seq<char>>(
            CallView::TrainReranker,
        ),
        command == "consolidate"@ && field(req, "aggressive"@) is None ==> call_of(req) == Ok::<
            CallView,
            Seq<char>,
        >(CallView::Consolidate { aggressive: false }),
        command == "consolidate"@ ==> (field(req, "aggressive"@) matches Some(JsonView::Bool(b))
            ==> call_of(req) == Ok::<CallView, Seq<char>>(CallView::Consolidate { aggressive: b })),
        !seq![
            "ingest"@,
            "recall"@,
            "reward"@,
            "consolidate"@,
            "stats"@,
            "status"@,
            "setup"@,
            "train-reranker"@,
        ].contains(command) ==> call_of(req) is Err,
{
    lemma_commands_differ();
    let all = seq![
        "ingest"@,
        "recall"@,
        "reward"@,
        "consolidate"@,
        "stats"@,
        "status"@,
        "setup"@,
        "train-reranker"@,
    ];
    assert(all[0] == "ingest"@ && all[1] == "recall"@ && all[2] == "reward"@);
    assert(all[3] == "consolidate"@ && all[4] == "stats"@ && all[5] == "status"@);
    assert(all[6] == "setup"@ && all[7] == "train-reranker"@);
}

/// An answer says whether it succeeded, and carries its data or its message and
/// never both.
pub proof fn answers_say_how_it_went(data: JsonView, message: Seq<char>)
    ensures
        field(ok_view(data), "ok"@) == Some(JsonView::Bool(true)),
        field(ok_view(data), "data"@) == Some(data),
        field(ok_view(data), "error"@) is None,
        field(error_view(message), "ok"@) == Some(JsonView::Bool(false)),
        field(error_view(message), "error"@) == Some(JsonView::Text(message)),
        field(error_view(message), "data"@) is None,
{
    broadcast use lemma_lookup_push;

    reveal_strlit("ok");
    reveal_strlit("data");
    reveal_strlit("error");
    assert("ok"@.len() == 2 && "data"@.len() == 4 && "error"@.len() == 5);
}

/// A recall that found memories hands them all out with the id to reward it by; one
/// that found none says that it does not know, and has no id.
pub proof fn empty_recalls_do_not_know(results: Seq<JsonView>, recall_id: Option<u64>)
    ensures
        field(recall_view(results, recall_id), "results"@) == Some(JsonView::Array(results)),
        field(recall_view(results, recall_id), "message"@) == if results.len() == 0 {
            Some(JsonView::Text("I don't know"@))
        } else {
            None
        },
        field(recall_view(results, recall_id), "recall_id"@) == if results.len() == 0 {
            Some(JsonView::Null)
        } else {
            Some(
                match recall_id {
                    Some(id) => JsonView::Number(JsonNumber::Unsigned(id)),
                    None => JsonView::Null,
                },
            )
        },
{
    broadcast use lemma_lookup_push;

    reveal_strlit("results");
    reveal_strlit("recall_id");
    reveal_strlit("message");
    assert("results"@[0] == 'r');
    assert("message"@[0] == 'm');
    assert("recall_id"@.len() == 9 && "results"@.len() == 7 && "message"@.len() == 7);
    if results.len() == 0 {
        assert(results =~= Seq::empty());
    }
}

/// Each count of a consolidation stands under its own name.
pub proof fn reports_name_their_counts(report: ConsolidationReport)
    ensures
        field(report_view(report), "pruned"@) == Some(
            JsonView::Number(JsonNumber::Unsigned(report.pruned)),
        ),
        field(report_view(report), "compressed"@) == Some(
            JsonView::Number(JsonNumber::Unsigned(report.compressed)),
        ),
        field(report_view(report), "promoted"@) == Some(
            JsonView::Number(JsonNumber::Unsigned(report.promoted)),
        ),
        field(report_view(report), "contradictions_linked"@) == Some(
            JsonView::Number(JsonNumber::Unsigned(report.contradictions_linked)),
        ),
{
    broadcast use lemma_lookup_push;

    reveal_strlit("pruned");
    reveal_strlit("compressed");
    reveal_strlit("promoted");
    reveal_strlit("contradictions_linked");
    assert("pruned"@.len() == 6 && "compressed"@.len() == 10);
    assert("promoted"@.len() == 8 && "contradictions_linked"@.len() == 21);
}

/// Each aggregate count stands under its own name.
pub proof fn stats_name_their_counts(stats: MemoryStats)
    ensures
        field(stats_view(stats), "total_engrams"@) == Some(
            JsonView::Number(JsonNumber::Unsigned(stats.total_engrams)),
        ),
        field(stats_view(stats), "contradictions"@) == Some(
            JsonView::Number(JsonNumber::Unsigned(stats.contradictions)),
        ),
        field(stats_view(stats), "concepts"@) == Some(
            JsonView::Number(JsonNumber::Unsigned(stats.concepts)),
        ),
        field(stats_view(stats), "identities"@) == Some(
            JsonView::Number(JsonNumber::Unsigned(stats.identities)),
        ),
{
    broadcast use lemma_lookup_push;

    reveal_strlit("total_engrams");
    reveal_strlit("contradictions");
    reveal_strlit("concepts");
    reveal_strlit("identities");
    assert("total_engrams"@.len() == 13 && "contradictions"@.len() == 14);
    assert("concepts"@.len() == 8 && "identities"@.len() == 10);
}

/// A mirrored path takes `GET` and `POST` alone, and the body of a `GET` changes
/// nothing.
pub proof fn mirrors_take_two_methods(
    command: Seq<char>,
    method: Method,
    query: Option<Seq<char>>,
    body: Seq<u8>,
    other: Seq<u8>,
    plan: MirrorPlan,
)
    requires
        mirror_plan_is(command, method, query, body, plan),
    ensures
        method is Get ==> mirror_plan_is(command, method, query, other, plan),
        !(method is Get) && !(method is Post) ==> (plan matches MirrorPlan::Refuse { status, .. }
            && status == 405),
        method is Get ==> !(plan is Refuse),
{
}

/// A mirrored `POST` without a body does what the `GET` does, and a body that is no
/// JSON object is a bad request.
pub proof fn bodies_must_be_objects(
    command: Seq<char>,
    query: Option<Seq<char>>,
    body: Seq<u8>,
    plan: MirrorPlan,
)
    requires
        mirror_plan_is(command, Method::Post, query, body, plan),
    ensures
        body.len() == 0 ==> mirror_plan_is(command, Method::Get, query, body, plan),
        body.len() > 0 && !(written_in(body) matches Ok(JsonView::Object(_))) ==> (
        plan matches MirrorPlan::Refuse { status, .. } && status == 400),
        body.len() > 0 ==> (written_in(body) matches Ok(JsonView::Object(_)) ==> !(
        plan is Refuse)),
{
}

/// A call that failed is the memory's failure, but for training without feedback,
/// which is the caller's.
pub proof fn failures_are_the_memorys(call: CallView)
    ensures
        failure_status_of(call) == 400 <==> call is TrainReranker,
        failure_status_of(call) == 500 <==> !(call is TrainReranker),
{
}

/// A mirrored command that is refused is a bad request with the words of its
/// refusal, and one that is not is asked of the memory.
pub proof fn mirrored_commands_are_asked(
    command: Seq<char>,
    query: Option<Seq<char>>,
    body: Seq<u8>,
    plan: MirrorPlan,
)
    requires
        mirror_plan_is(command, Method::Get, query, body, plan),
        command != "help"@,
    ensures
        ({
            let req = JsonView::Object(
                query_fields(query).push(("command"@, JsonView::Text(command))),
            );
            match call_of(req) {
                Ok(call) => plan matches MirrorPlan::Call(c) && c@ == call,
                Err(words) => plan matches MirrorPlan::Reject { status, message } && status == 400
                    && message@ == words,
            }
        }),
{
    assert(query_fields(query) + no_fields() =~= query_fields(query));
}

} // verus!
