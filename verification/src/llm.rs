//! Chat providers: endpoints, request bodies, replies and retries.

use crate::config::LlmConfig;
use crate::double::Double;
use crate::error::{ErrorView, MnemosError, Outcome};
use crate::json::{
    field, items_view, lemma_lookup_push, list, no_fields, read_json, text_of, view_of, written, Json, JsonNumber,
    JsonView, ObjectBuilder,
};
use crate::text::{
    decimal, find_char, find_span, first_at, is_span, parse_usize, show_u64, strip_trailing, trim, trimmed,
    unsigned_value, without_trailing,
};
use vstd::arithmetic::power2::{lemma2_to64, lemma_pow2_strictly_increases, pow2};
use vstd::prelude::*;

verus! {

/// Client settings of an endpoint that speaks the chat completions protocol.
#[derive(Debug)]
pub struct OpenAiCompatibleProvider {
    pub api_key: String,
    pub base_url: String,
    pub model: String,
}

/// A message as it is sent.
pub open spec fn message_view(role: Seq<char>, content: Seq<char>) -> JsonView {
    JsonView::Object(
        no_fields().push(("role"@, JsonView::Text(role))).push(
            ("content"@, JsonView::Text(content)),
        ),
    )
}

/// The body of a chat request.
pub open spec fn chat_body_view(
    model: Seq<char>,
    messages: Seq<JsonView>,
    json_mode: bool,
) -> JsonView {
    let plain = no_fields().push(("model"@, JsonView::Text(model))).push(
        ("messages"@, JsonView::Array(messages)),
    ).push(("temperature"@, JsonView::Number(JsonNumber::Float(Double { bits: 0 }))));
    if json_mode {
        JsonView::Object(
            plain.push(
                (
                    "response_format"@,
                    JsonView::Object(no_fields().push(("type"@, JsonView::Text("json_object"@)))),
                ),
            ),
        )
    } else {
        JsonView::Object(plain)
    }
}

fn message(role: &str, content: &str) -> (r: Json)
    ensures
        r@ == message_view(role@, content@),
{
    ObjectBuilder::new().with("role", Json::text(role)).with("content", Json::text(content)).done()
}

/// The messages of a plain prompt.
pub fn user_messages(prompt: &str) -> (r: Vec<Json>)
    ensures
        items_view(r@) == seq![message_view("user"@, prompt@)],
{
    let mut out: Vec<Json> = Vec::new();
    out.push(message("user", prompt));
    assert(items_view(out@) =~= seq![message_view("user"@, prompt@)]);
    out
}

/// The messages of a prompt with instructions before it.
pub fn system_messages(system: &str, user: &str) -> (r: Vec<Json>)
    ensures
        items_view(r@) == seq![
            message_view("system"@, system@),
            message_view("user"@, user@),
        ],
{
    let mut out: Vec<Json> = Vec::new();
    out.push(message("system", system));
    out.push(message("user", user));
    assert(items_view(out@) =~= seq![
        message_view("system"@, system@),
        message_view("user"@, user@),
    ]);
    out
}

impl OpenAiCompatibleProvider {
    /// Builds from explicit parts; slashes at the end of `base_url` are dropped.
    pub fn new(model: &str, base_url: &str, api_key: &str) -> (r: OpenAiCompatibleProvider)
        ensures
            r.model@ == model@,
            r.base_url@ == without_trailing(base_url@, '/'),
            r.api_key@ == api_key@,
            r.base_url@.len() > 0 ==> r.base_url@.last() != '/',
    {
        OpenAiCompatibleProvider {
            api_key: api_key.to_owned(),
            base_url: strip_trailing(base_url, '/'),
            model: model.to_owned(),
        }
    }

    /// Builds from the chat settings.
    pub fn from_config(config: &LlmConfig) -> (r: OpenAiCompatibleProvider)
        ensures
            r.model@ == config.model@,
            r.base_url@ == without_trailing(config.base_url@, '/'),
            r.api_key@ == config.api_key@,
    {
        OpenAiCompatibleProvider::new(
            config.model.as_str(),
            config.base_url.as_str(),
            config.api_key.as_str(),
        )
    }

    /// The model that requests name.
    pub fn model(&self) -> (r: &str)
        ensures
            r@ == self.model@,
    {
        self.model.as_str()
    }

    /// The base URL, without a slash at its end.
    pub fn base_url(&self) -> (r: &str)
        ensures
            r@ == self.base_url@,
    {
        self.base_url.as_str()
    }

    /// The URL of the chat endpoint.
    pub fn chat_url(&self) -> (r: String)
        ensures
            r@ == self.base_url@ + "/chat/completions"@,
    {
        self.base_url.clone().concat("/chat/completions")
    }

    /// The body of a chat request; `json_mode` holds the model to a JSON object.
    pub fn chat_body(&self, messages: Vec<Json>, json_mode: bool) -> (r: Json)
        ensures
            r@ == chat_body_view(self.model@, items_view(messages@), json_mode),
    {
        let plain = ObjectBuilder::new().with("model", Json::text(self.model.as_str())).with(
            "messages",
            list(messages),
        ).with("temperature", Json::Number(JsonNumber::Float(Double { bits: 0 })));
        if json_mode {
            let format = ObjectBuilder::new().with("type", Json::text("json_object")).done();
            plain.with("response_format", format).done()
        } else {
            plain.done()
        }
    }

    /// The bearer token of requests; none without a key.
    pub fn bearer(&self) -> (r: Option<&str>)
        ensures
            match r {
                Some(t) => t@ == self.api_key@ && t@.len() > 0,
                None => self.api_key@.len() == 0,
            },
    {
        let key = self.api_key.as_str();
        if key.is_empty() {
            None
        } else {
            Some(key)
        }
    }
}

/// Base URL of the Anthropic endpoint.
pub const ANTHROPIC_DEFAULT_BASE_URL: &'static str = "https://api.anthropic.com/v1";

/// Base URL of a local Ollama server.
pub const OLLAMA_DEFAULT_BASE_URL: &'static str = "http://localhost:11434/v1";

proof fn lemma_default_urls()
    ensures
        without_trailing(ANTHROPIC_DEFAULT_BASE_URL@, '/') == ANTHROPIC_DEFAULT_BASE_URL@,
        without_trailing(OLLAMA_DEFAULT_BASE_URL@, '/') == OLLAMA_DEFAULT_BASE_URL@,
{
    reveal_strlit("https://api.anthropic.com/v1");
    reveal_strlit("http://localhost:11434/v1");
}

/// Chat through Anthropic's endpoint.
#[derive(Debug)]
pub struct AnthropicProvider {
    pub inner: OpenAiCompatibleProvider,
}

impl AnthropicProvider {
    /// Builds for `model` against the default endpoint.
    pub fn new(api_key: &str, model: &str) -> (r: AnthropicProvider)
        ensures
            r.inner.model@ == model@,
            r.inner.api_key@ == api_key@,
            r.inner.base_url@ == ANTHROPIC_DEFAULT_BASE_URL@,
    {
        proof {
            lemma_default_urls();
        }
        AnthropicProvider {
            inner: OpenAiCompatibleProvider::new(model, ANTHROPIC_DEFAULT_BASE_URL, api_key),
        }
    }

    /// Builds from the key and the model of the chat settings. Their base URL is
    /// never used here.
    pub fn from_config(config: &LlmConfig) -> (r: AnthropicProvider)
        ensures
            r.inner.model@ == config.model@,
            r.inner.api_key@ == config.api_key@,
            r.inner.base_url@ == ANTHROPIC_DEFAULT_BASE_URL@,
    {
        AnthropicProvider::new(config.api_key.as_str(), config.model.as_str())
    }

    /// The model that requests name.
    pub fn model(&self) -> (r: &str)
        ensures
            r@ == self.inner.model@,
    {
        self.inner.model()
    }

    /// The base URL.
    pub fn base_url(&self) -> (r: &str)
        ensures
            r@ == self.inner.base_url@,
    {
        self.inner.base_url()
    }
}

/// Chat through a local Ollama server.
#[derive(Debug)]
pub struct OllamaProvider {
    pub inner: OpenAiCompatibleProvider,
}

impl OllamaProvider {
    /// Builds for `model` against the local default, without a key.
    pub fn new(model: &str) -> (r: OllamaProvider)
        ensures
            r.inner.model@ == model@,
            r.inner.api_key@.len() == 0,
            r.inner.base_url@ == OLLAMA_DEFAULT_BASE_URL@,
    {
        proof {
            lemma_default_urls();
        }
        OllamaProvider::with_base(model, OLLAMA_DEFAULT_BASE_URL)
    }

    /// Builds for `model` against another host, without a key.
    pub fn with_base(model: &str, base_url: &str) -> (r: OllamaProvider)
        ensures
            r.inner.model@ == model@,
            r.inner.api_key@.len() == 0,
            r.inner.base_url@ == without_trailing(base_url@, '/'),
    {
        let empty = String::new();
        OllamaProvider { inner: OpenAiCompatibleProvider::new(model, base_url, empty.as_str()) }
    }

    /// Builds from the model of the chat settings. Their base URL and key are
    /// never used here.
    pub fn from_config(config: &LlmConfig) -> (r: OllamaProvider)
        ensures
            r.inner.model@ == config.model@,
            r.inner.api_key@.len() == 0,
            r.inner.base_url@ == OLLAMA_DEFAULT_BASE_URL@,
    {
        OllamaProvider::new(config.model.as_str())
    }

    /// The model that requests name.
    pub fn model(&self) -> (r: &str)
        ensures
            r@ == self.inner.model@,
    {
        self.inner.model()
    }

    /// The base URL.
    pub fn base_url(&self) -> (r: &str)
        ensures
            r@ == self.inner.base_url@,
    {
        self.inner.base_url()
    }
}

/// What stands at place 0: the first of a list, or what an object has under `0`.
pub open spec fn at_zero(j: JsonView) -> Option<JsonView> {
    match j {
        JsonView::Array(items) => if items.len() > 0 {
            Some(items[0])
        } else {
            None
        },
        _ => field(j, "0"@),
    }
}

fn first_of(j: &Json) -> (r: Option<&Json>)
    ensures
        view_of(r) == at_zero(j@),
{
    match j.as_array() {
        Some(items) => if items.len() > 0 {
            Some(&items[0])
        } else {
            None
        },
        None => j.get("0"),
    }
}

/// The text at `choices[0].message.content`.
pub open spec fn content_of(body: JsonView) -> Option<Seq<char>> {
    match field(body, "choices"@) {
        Some(choices) => match at_zero(choices) {
            Some(choice) => match field(choice, "message"@) {
                Some(m) => match field(m, "content"@) {
                    Some(c) => text_of(c),
                    None => None,
                },
                None => None,
            },
            None => None,
        },
        None => None,
    }
}

/// The assistant's text in a chat reply. `shown` is the reply as text.
pub fn extract_content(body: &Json, shown: &str) -> (r: Outcome<String>)
    ensures
        match r {
            Ok(text) => content_of(body@) == Some(text@),
            Err(e) => content_of(body@) is None && e@ == ErrorView::Llm(
                "missing choices[0].message.content: "@ + shown@,
            ),
        },
{
    if let Some(choices) = body.get("choices") {
        if let Some(choice) = first_of(choices) {
            if let Some(m) = choice.get("message") {
                if let Some(c) = m.get("content") {
                    if let Some(text) = c.as_text() {
                        return Ok(text.to_owned());
                    }
                }
            }
        }
    }
    Err(MnemosError::Llm("missing choices[0].message.content: ".to_owned().concat(shown)))
}

/// The number of retries that a setting asks for; three where it names none.
pub fn parse_max_retries(raw: Option<&str>) -> (r: usize)
    ensures
        match raw {
            Some(s) => match unsigned_value(trimmed(s@), usize::MAX as nat) {
                Some(n) => r == n,
                None => r == 3,
            },
            None => r == 3,
        },
{
    match raw {
        Some(s) => match parse_usize(trim(s)) {
            Some(n) => n,
            None => 3,
        },
        None => 3,
    }
}

/// Milliseconds to wait after the given attempt: a hundred, doubled for each
/// attempt before it, at most two thousand.
pub open spec fn backoff_ms(attempt: nat) -> nat {
    if 100 * pow2(attempt) <= 2000 {
        100 * pow2(attempt)
    } else {
        2000
    }
}

/// Milliseconds to wait after the given attempt.
pub fn backoff(attempt: usize) -> (r: u64)
    ensures
        r == backoff_ms(attempt as nat),
{
    proof {
        lemma2_to64();
        if attempt > 5 {
            lemma_pow2_strictly_increases(5, attempt as nat);
        }
    }
    if attempt == 0 {
        100
    } else if attempt == 1 {
        200
    } else if attempt == 2 {
        400
    } else if attempt == 3 {
        800
    } else if attempt == 4 {
        1600
    } else {
        2000
    }
}

/// The wait never shrinks from one attempt to a later one, and never exceeds two
/// seconds.
pub proof fn backoff_grows_to_a_cap(earlier: nat, later: nat)
    requires
        earlier <= later,
    ensures
        backoff_ms(earlier) <= backoff_ms(later) <= 2000,
{
    if earlier < later {
        lemma_pow2_strictly_increases(earlier, later);
    }
}

/// Milliseconds held within `u64`.
pub fn elapsed_ms(millis: u128) -> (r: u64)
    ensures
        r == if millis <= u64::MAX {
            millis as int
        } else {
            u64::MAX as int
        },
{
    if millis <= u64::MAX as u128 {
        millis as u64
    } else {
        u64::MAX
    }
}

/// A status that another try may change: rate limits, timeouts and server
/// errors.
pub open spec fn transient(code: u16) -> bool {
    500 <= code < 600 || code == 429 || code == 408
}

/// A chat request on its way: `attempt` tries have failed.
#[derive(Clone, Copy, Debug, PartialEq, Eq, Structural)]
pub struct SendRun {
    pub attempt: usize,
    pub max_retries: usize,
}

/// What came of one try.
#[derive(Debug)]
pub enum SendEvent {
    /// The request could not be duplicated for the try.
    NotCloneable,
    /// A reply with this status, and the status as text.
    Status { code: u16, shown: String },
    /// No reply; `retriable` for timeouts and failed connections.
    Transport { message: String, retriable: bool },
}

/// What to do after a try.
#[derive(Debug)]
pub enum SendStep {
    /// Read the reply and take the assistant's text from it.
    ReadContent,
    /// Read the reply and report it with [`client_error`].
    ReadError,
    /// Wait, then try again.
    Retry { wait_ms: u64, run: SendRun },
    Fail { error: MnemosError },
}

impl SendRun {
    /// The first try.
    pub fn begin(max_retries: usize) -> (r: SendRun)
        ensures
            r == (SendRun { attempt: 0, max_retries }),
    {
        SendRun { attempt: 0, max_retries }
    }

    /// What a try leads to.
    pub open spec fn went_on(self, event: SendEvent, r: SendStep) -> bool {
        match event {
            SendEvent::NotCloneable => r matches SendStep::Fail { error } && error@
                == ErrorView::Http("request body not cloneable (streaming?)"@),
            SendEvent::Status { code, shown } => if 200 <= code < 300 {
                r is ReadContent
            } else if !transient(code) {
                r is ReadError
            } else if self.attempt < self.max_retries {
                self.retried(r)
            } else {
                r matches SendStep::Fail { error } && error@ == ErrorView::Llm(
                    "HTTP "@ + shown@ + " after "@ + decimal(self.attempt as nat)
                        + " retries"@,
                )
            },
            SendEvent::Transport { message, retriable } => if retriable && self.attempt
                < self.max_retries {
                self.retried(r)
            } else {
                r matches SendStep::Fail { error } && error@ == ErrorView::Http(
                    "transport error after "@ + decimal(self.attempt as nat) + " retries: "@
                        + message@,
                )
            },
        }
    }

    /// Decides what a try leads to.
    pub fn step(self, event: SendEvent) -> (r: SendStep)
        requires
            self.attempt <= self.max_retries,
        ensures
            self.went_on(event, r),
            r is Retry <==> self.retries(event),
    {
        match event {
            SendEvent::NotCloneable => SendStep::Fail {
                error: MnemosError::Http("request body not cloneable (streaming?)".to_owned()),
            },
            SendEvent::Status { code, shown } => {
                if 200 <= code && code < 300 {
                    SendStep::ReadContent
                } else if !((500 <= code && code < 600) || code == 429 || code == 408) {
                    SendStep::ReadError
                } else if self.attempt < self.max_retries {
                    self.again()
                } else {
                    let tries = show_u64(self.attempt as u64);
                    let text = "HTTP ".to_owned().concat(shown.as_str()).concat(" after ").concat(
                        tries.as_str(),
                    ).concat(" retries");
                    SendStep::Fail { error: MnemosError::Llm(text) }
                }
            },
            SendEvent::Transport { message, retriable } => {
                if retriable && self.attempt < self.max_retries {
                    self.again()
                } else {
                    let tries = show_u64(self.attempt as u64);
                    let text = "transport error after ".to_owned().concat(tries.as_str()).concat(
                        " retries: ",
                    ).concat(message.as_str());
                    SendStep::Fail { error: MnemosError::Http(text) }
                }
            },
        }
    }

    /// What came of a try leads to another: it may change, and a retry is left.
    pub open spec fn retries(self, event: SendEvent) -> bool {
        self.attempt < self.max_retries && match event {
            SendEvent::NotCloneable => false,
            SendEvent::Status { code, .. } => transient(code),
            SendEvent::Transport { retriable, .. } => retriable,
        }
    }

    /// How often the request is sent while its tries end in these events.
    pub open spec fn tries(self, events: Seq<SendEvent>) -> nat
        decreases events.len(),
    {
        if events.len() == 0 {
            0
        } else if self.retries(events[0]) {
            1 + SendRun {
                attempt: (self.attempt + 1) as usize,
                max_retries: self.max_retries,
            }.tries(events.skip(1))
        } else {
            1
        }
    }

    /// The step waits and tries once more.
    pub open spec fn retried(self, r: SendStep) -> bool {
        r matches SendStep::Retry { wait_ms, run } && wait_ms == backoff_ms(self.attempt as nat)
            && run == (SendRun {
            attempt: (self.attempt + 1) as usize,
            max_retries: self.max_retries,
        })
    }

    fn again(self) -> (r: SendStep)
        requires
            self.attempt < self.max_retries,
        ensures
            self.retried(r),
    {
        SendStep::Retry {
            wait_ms: backoff(self.attempt),
            run: SendRun { attempt: self.attempt + 1, max_retries: self.max_retries },
        }
    }
}

/// A request is sent once, and again at most as often as it may be retried,
/// whatever becomes of its tries.
pub proof fn tries_are_bounded(run: SendRun, events: Seq<SendEvent>)
    requires
        run.attempt <= run.max_retries,
    ensures
        run.tries(events) <= run.max_retries - run.attempt + 1,
    decreases events.len(),
{
    if events.len() > 0 && run.retries(events[0]) {
        tries_are_bounded(
            SendRun { attempt: (run.attempt + 1) as usize, max_retries: run.max_retries },
            events.skip(1),
        );
    }
}

/// A reply that refuses the request as it stands ends it: nothing is sent again.
pub proof fn refusals_are_not_retried(run: SendRun, code: u16, shown: String)
    requires
        400 <= code < 500,
        code != 408,
        code != 429,
    ensures
        !run.retries(SendEvent::Status { code, shown }),
{
}

/// The failure of a request that the server refused.
pub fn client_error(status: &str, body: &str) -> (r: MnemosError)
    ensures
        r@ == ErrorView::Llm("HTTP "@ + status@ + ": "@ + body@),
{
    MnemosError::Llm("HTTP ".to_owned().concat(status).concat(": ").concat(body))
}

/// The reply of a request held to JSON, read. The error shows the reply.
pub fn parse_json_reply(raw: &str) -> (r: Outcome<Json>)
    ensures
        match r {
            Ok(j) => written(raw@) == Ok::<JsonView, Seq<char>>(j@),
            Err(e) => match written(raw@) {
                Ok(_) => false,
                Err(words) => e@ == ErrorView::Llm(
                    "json_mode reply was not JSON: "@ + words + "; reply: "@ + raw@,
                ),
            },
        },
{
    match read_json(raw) {
        Ok(j) => Ok(j),
        Err(words) => Err(
            MnemosError::Llm(
                "json_mode reply was not JSON: ".to_owned().concat(words.as_str()).concat(
                    "; reply: ",
                ).concat(raw),
            ),
        ),
    }
}

/// `s` holds both characters.
pub open spec fn has_pair(s: Seq<char>, open: char, close: char) -> bool {
    s.contains(open) && s.contains(close)
}

/// `part` is the piece of `s` from the first `open` to the last `close`, or all of
/// `s` where the last `close` comes before the first `open`.
pub open spec fn is_slice(s: Seq<char>, open: char, close: char, part: Seq<char>) -> bool {
    exists|from: int, to: int| #[trigger]
        is_span(s, open, close, from, to) && part == if from <= to {
            s.subrange(from, to + 1)
        } else {
            s
        }
}

/// The piece of `raw` from the first `open` to the last `close`, where both occur.
pub(crate) fn slice_of(raw: &str, open: char, close: char) -> (r: Option<&str>)
    ensures
        match r {
            Some(part) => has_pair(raw@, open, close) && is_slice(raw@, open, close, part@),
            None => !has_pair(raw@, open, close),
        },
{
    match find_span(raw, open, close) {
        Some((from, to)) => {
            assert(is_span(raw@, open, close, from as int, to as int));
            assert(raw@.contains(open) && raw@.contains(close));
            if from <= to {
                Some(raw.substring_char(from, to + 1))
            } else {
                Some(raw)
            }
        },
        None => None,
    }
}

/// The first `a` comes before the first `b`.
pub open spec fn comes_first(s: Seq<char>, a: char, b: char) -> bool {
    forall|i: int, j: int| #[trigger] first_at(s, a, i) && #[trigger] first_at(s, b, j) ==> i < j
}

/// `part` is the JSON part of a reply that may hold prose around it: the list
/// where there is one that opens before any object, else the object, else the
/// whole reply.
pub open spec fn is_json_part(raw: Seq<char>, part: Seq<char>) -> bool {
    if has_pair(raw, '[', ']') && (!has_pair(raw, '{', '}') || comes_first(raw, '[', '{')) {
        is_slice(raw, '[', ']', part)
    } else if has_pair(raw, '{', '}') {
        is_slice(raw, '{', '}', part)
    } else {
        part == raw
    }
}

/// The JSON part of a reply that may hold prose around it.
pub fn extract_json(raw: &str) -> (r: &str)
    ensures
        is_json_part(raw@, r@),
{
    let array = slice_of(raw, '[', ']');
    let object = slice_of(raw, '{', '}');
    match (array, object) {
        (Some(items), Some(fields)) => {
            if precedes(raw, '[', '{') {
                items
            } else {
                fields
            }
        },
        (Some(items), None) => items,
        (None, Some(fields)) => fields,
        (None, None) => raw,
    }
}

fn precedes(s: &str, a: char, b: char) -> (r: bool)
    requires
        s@.contains(a),
        s@.contains(b),
    ensures
        r == comes_first(s@, a, b),
{
    match (find_char(s, a), find_char(s, b)) {
        (Some(i), Some(j)) => {
            assert(first_at(s@, a, i as int) && first_at(s@, b, j as int));
            i < j
        },
        _ => false,
    }
}

/// JSON between prose without brackets is found whole, whatever brackets it holds
/// inside.
pub proof fn json_is_found_in_prose(
    before: Seq<char>,
    json: Seq<char>,
    after: Seq<char>,
    part: Seq<char>,
)
    requires
        is_json_part(before + json + after, part),
        forall|i: int| 0 <= i < before.len() ==> !is_bracket(#[trigger] before[i]),
        forall|i: int| 0 <= i < after.len() ==> !is_bracket(#[trigger] after[i]),
        json.len() >= 2,
        (json[0] == '[' && json.last() == ']') || (json[0] == '{' && json.last() == '}'),
    ensures
        part == json,
{
    let raw = before + json + after;
    let open = json[0];
    let close = json.last();
    let from = before.len() as int;
    let to = before.len() + json.len() - 1;
    assert forall|i: int| 0 <= i < from implies !is_bracket(#[trigger] raw[i]) by {
        assert(raw[i] == before[i]);
    }
    assert forall|i: int| to < i < raw.len() implies !is_bracket(#[trigger] raw[i]) by {
        assert(raw[i] == after[i - before.len() - json.len()]);
    }
    assert(raw[from] == open && raw[to] == close);
    assert(is_span(raw, open, close, from, to));
    assert(raw.subrange(from, to + 1) =~= json);
    if open == '[' {
        if raw.contains('{') {
            assert(comes_first(raw, '[', '{'));
        }
    } else {
        if has_pair(raw, '[', ']') {
            lemma_first_exists(raw, '[');
            let i = choose|i: int| first_at(raw, '[', i);
            assert(first_at(raw, '[', i) && first_at(raw, '{', from));
            assert(!comes_first(raw, '[', '{'));
        }
    }
}

/// A bracket of JSON.
pub open spec fn is_bracket(c: char) -> bool {
    c == '[' || c == ']' || c == '{' || c == '}'
}

proof fn lemma_first_exists(s: Seq<char>, c: char)
    requires
        s.contains(c),
    ensures
        exists|i: int| first_at(s, c, i),
    decreases s.len(),
{
    let fewer = s.drop_last();
    if fewer.contains(c) {
        lemma_first_exists(fewer, c);
        let i = choose|i: int| first_at(fewer, c, i);
        assert forall|j: int| 0 <= j < i implies s[j] != c by {
            assert(fewer[j] != c);
        }
        assert(first_at(s, c, i));
    } else {
        assert forall|j: int| 0 <= j < s.len() - 1 implies s[j] != c by {
            if s[j] == c {
                assert(fewer[j] == c);
            }
        }
        assert(first_at(s, c, s.len() - 1));
    }
}

/// A request for structured output, asked again while the reply does not parse.
#[derive(Debug)]
pub struct StructuredRun {
    pub prompt: String,
    pub repair_hint: String,
    /// How often the question may be asked in all.
    pub attempts: usize,
    /// How often it was answered.
    pub answered: usize,
    /// The question to ask next.
    pub current: String,
}

/// What to do after a reply that did not parse.
#[derive(Debug)]
pub enum StructuredStep {
    Ask { run: StructuredRun },
    Fail { error: MnemosError },
}

impl StructuredRun {
    /// The number of questions asked is within bounds.
    pub open spec fn valid(&self) -> bool {
        self.answered < self.attempts
    }

    /// The first question.
    pub fn begin(prompt: &str, attempts: usize, repair_hint: &str) -> (r: StructuredRun)
        ensures
            r.valid(),
            r.prompt@ == prompt@,
            r.repair_hint@ == repair_hint@,
            r.attempts == if attempts == 0 {
                1
            } else {
                attempts
            },
            r.answered == 0,
            r.current@ == prompt@,
    {
        StructuredRun {
            prompt: prompt.to_owned(),
            repair_hint: repair_hint.to_owned(),
            attempts: if attempts == 0 {
                1
            } else {
                attempts
            },
            answered: 0,
            current: prompt.to_owned(),
        }
    }

    /// The question that quotes a reply that did not parse.
    pub open spec fn repair(&self, error: Seq<char>, raw: Seq<char>) -> Seq<char> {
        self.prompt@ + "\n\nYour previous response was not valid JSON ("@ + error + "). "@
            + self.repair_hint@ + "\nPrevious response:\n"@ + raw
    }

    /// Takes a reply that did not parse, with the parser's words.
    pub fn unparsed(self, error: &str, raw: &str) -> (r: StructuredStep)
        requires
            self.valid(),
        ensures
            if self.answered + 1 < self.attempts {
                r matches StructuredStep::Ask { run } && run.valid() && run.answered
                    == self.answered + 1 && run.attempts == self.attempts && run.prompt@
                    == self.prompt@ && run.repair_hint@ == self.repair_hint@ && run.current@
                    == self.repair(error@, raw@)
            } else {
                r matches StructuredStep::Fail { error: e } && e@ == ErrorView::Llm(
                    "structured output failed after "@ + decimal(self.attempts as nat)
                        + " attempts: "@ + error@,
                )
            },
    {
        if self.answered < self.attempts - 1 {
            let current = self.prompt.clone().concat(
                "\n\nYour previous response was not valid JSON (",
            ).concat(error).concat("). ").concat(self.repair_hint.as_str()).concat(
                "\nPrevious response:\n",
            ).concat(raw);
            StructuredStep::Ask {
                run: StructuredRun {
                    prompt: self.prompt,
                    repair_hint: self.repair_hint,
                    attempts: self.attempts,
                    answered: self.answered + 1,
                    current,
                },
            }
        } else {
            let tries = show_u64(self.attempts as u64);
            let text = "structured output failed after ".to_owned().concat(tries.as_str()).concat(
                " attempts: ",
            ).concat(error);
            StructuredStep::Fail { error: MnemosError::Llm(text) }
        }
    }
}

/// A reply of success is read as content, whatever the try.
pub proof fn successes_are_read(run: SendRun, code: u16, shown: String, r: SendStep)
    requires
        run.went_on(SendEvent::Status { code, shown }, r),
    ensures
        200 <= code <= 299 <==> r is ReadContent,
        r is ReadError ==> code < 200 || code >= 300,
{
}

/// Server errors, rate limits and timeouts are tried again while a retry is left,
/// after a tenth of a second that doubles up to two seconds; then they are the
/// failure.
pub proof fn passing_troubles_are_retried(run: SendRun, code: u16, shown: String, r: SendStep)
    requires
        run.attempt <= run.max_retries,
        run.went_on(SendEvent::Status { code, shown }, r),
        500 <= code <= 599 || code == 429 || code == 408,
    ensures
        run.attempt < run.max_retries ==> (r matches SendStep::Retry { wait_ms, run: next }
            && next.attempt == run.attempt + 1 && next.max_retries == run.max_retries && (
        run.attempt <= 4 ==> wait_ms == 100 * pow2(run.attempt as nat)) && (run.attempt > 4
            ==> wait_ms == 2000)),
        run.attempt == run.max_retries ==> r is Fail,
{
    lemma2_to64();
    if run.attempt > 5 {
        lemma_pow2_strictly_increases(5, run.attempt as nat);
    }
}

/// Any other refusal is read and reported at once.
pub proof fn other_refusals_are_reported(run: SendRun, code: u16, shown: String, r: SendStep)
    requires
        run.went_on(SendEvent::Status { code, shown }, r),
        code < 200 || 300 <= code < 500 || 600 <= code,
        code != 408,
        code != 429,
    ensures
        r is ReadError,
{
}

/// A connection that broke is tried again only where another try may help and a
/// retry is left.
pub proof fn broken_connections_are_retried(
    run: SendRun,
    message: String,
    retriable: bool,
    r: SendStep,
)
    requires
        run.attempt <= run.max_retries,
        run.went_on(SendEvent::Transport { message, retriable }, r),
    ensures
        r is Retry <==> retriable && run.attempt != run.max_retries,
        r is Fail <==> !(retriable && run.attempt != run.max_retries),
        r matches SendStep::Retry { run: next, .. } ==> next.attempt == run.attempt + 1
            && next.max_retries == run.max_retries,
{
}

/// The text of a reply is the content of the message of its first choice: what
/// other choices say is not read.
pub proof fn the_first_choice_speaks(
    body: JsonView,
    choices: Seq<JsonView>,
    m: JsonView,
    content: JsonView,
)
    requires
        field(body, "choices"@) == Some(JsonView::Array(choices)),
        choices.len() > 0,
        field(choices[0], "message"@) == Some(m),
        field(m, "content"@) == Some(content),
    ensures
        content_of(body) == match content {
            JsonView::Text(s) => Some(s),
            _ => None::<Seq<char>>,
        },
{
}

/// A reply without choices has no text.
pub proof fn no_choice_says_nothing(body: JsonView)
    requires
        field(body, "choices"@) is None || field(body, "choices"@) == Some(
            JsonView::Array(Seq::empty()),
        ),
    ensures
        content_of(body) is None,
{
}

/// A request names the model and carries every message in order, at temperature
/// zero, and holds the model to JSON exactly where that is asked for.
pub proof fn requests_carry_their_messages(
    model: Seq<char>,
    messages: Seq<JsonView>,
    json_mode: bool,
)
    ensures
        ({
            let body = chat_body_view(model, messages, json_mode);
            &&& field(body, "model"@) == Some(JsonView::Text(model))
            &&& field(body, "messages"@) == Some(JsonView::Array(messages))
            &&& field(body, "temperature"@) == Some(
                JsonView::Number(JsonNumber::Float(Double { bits: 0 })),
            )
            &&& field(body, "response_format"@) is Some <==> json_mode
        }),
{
    broadcast use lemma_lookup_push;

    reveal_strlit("model");
    reveal_strlit("messages");
    reveal_strlit("temperature");
    reveal_strlit("response_format");
    assert("model"@.len() == 5);
    assert("messages"@.len() == 8);
    assert("temperature"@.len() == 11);
    assert("response_format"@.len() == 15);
}

proof fn lemma_span_between(
    before: Seq<char>,
    inner: Seq<char>,
    after: Seq<char>,
    open: char,
    close: char,
    part: Seq<char>,
)
    requires
        inner.len() >= 2,
        inner[0] == open,
        inner.last() == close,
        !before.contains(open),
        !after.contains(close),
        is_slice(before + inner + after, open, close, part),
    ensures
        part == inner,
{
    let raw = before + inner + after;
    let n = before.len() as int;
    let m = n + inner.len() - 1;
    let (from, to) = choose|from: int, to: int| #[trigger]
        is_span(raw, open, close, from, to) && part == if from <= to {
            raw.subrange(from, to + 1)
        } else {
            raw
        };
    assert(raw[n] == inner[0]);
    assert(raw[m] == inner.last());
    if from < n {
        assert(raw[from] == before[from]);
        assert(before.contains(before[from]));
    }
    if to > m {
        assert(raw[to] == after[to - m - 1]);
        assert(after.contains(after[to - m - 1]));
    }
    assert(from == n && to == m);
    assert(raw.subrange(n, m + 1) =~= inner);
}

proof fn lemma_holds(before: Seq<char>, inner: Seq<char>, after: Seq<char>, c: char)
    requires
        inner.contains(c),
    ensures
        (before + inner + after).contains(c),
{
    let k = choose|k: int| 0 <= k < inner.len() && inner[k] == c;
    assert((before + inner + after)[before.len() + k] == c);
}

/// Prose before and after an object or a list is dropped, and what stands between
/// is kept as it is.
pub proof fn prose_around_json_is_dropped(
    before: Seq<char>,
    inner: Seq<char>,
    after: Seq<char>,
    part: Seq<char>,
)
    requires
        inner.len() >= 2,
        !before.contains('{'),
        !before.contains('['),
        is_json_part(before + inner + after, part),
    ensures
        inner[0] == '{' && inner.last() == '}' && !after.contains('}') ==> part == inner,
        inner[0] == '[' && inner.last() == ']' && !after.contains(']') ==> part == inner,
{
    let raw = before + inner + after;
    let n = before.len() as int;
    assert(inner.contains(inner[0]));
    assert(inner.contains(inner.last()));
    if inner[0] == '{' && inner.last() == '}' && !after.contains('}') {
        lemma_holds(before, inner, after, '{');
        lemma_holds(before, inner, after, '}');
        if comes_first(raw, '[', '{') && raw.contains('[') {
            let i = lemma_first_place(raw, '[');
            let j = lemma_first_place(raw, '{');
            assert(i < j);
            assert(raw[n] == '{');
            assert(j <= n);
            assert(raw[i] == before[i]);
            assert(before.contains(before[i]));
        }
        lemma_span_between(before, inner, after, '{', '}', part);
    }
    if inner[0] == '[' && inner.last() == ']' && !after.contains(']') {
        lemma_holds(before, inner, after, '[');
        lemma_holds(before, inner, after, ']');
        assert(comes_first(raw, '[', '{')) by {
            assert forall|i: int, j: int| #[trigger]
                first_at(raw, '[', i) && #[trigger] first_at(raw, '{', j) implies i < j by {
                assert(raw[n] == '[');
                assert(i <= n);
                if j <= n && j != n {
                    assert(raw[j] == before[j]);
                    assert(before.contains(before[j]));
                }
            }
        }
        lemma_span_between(before, inner, after, '[', ']', part);
    }
}

proof fn lemma_first_place(s: Seq<char>, c: char) -> (i: int)
    requires
        s.contains(c),
    ensures
        first_at(s, c, i),
    decreases s.len(),
{
    let k = choose|k: int| 0 <= k < s.len() && s[k] == c;
    if s.take(k).contains(c) {
        let i = lemma_first_place(s.take(k), c);
        assert forall|j: int| 0 <= j < i implies s[j] != c by {
            assert(s.take(k)[j] == s[j]);
        }
        i
    } else {
        assert forall|j: int| 0 <= j < k implies s[j] != c by {
            if s[j] == c {
                assert(s.take(k)[j] == c);
            }
        }
        k
    }
}

/// A reply without an object and without a list is kept whole.
pub proof fn plain_replies_are_kept_whole(raw: Seq<char>, part: Seq<char>)
    requires
        is_json_part(raw, part),
        !raw.contains('{') || !raw.contains('}'),
        !raw.contains('[') || !raw.contains(']'),
    ensures
        part == raw,
{
}

} // verus!
