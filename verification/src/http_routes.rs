//! The paths of the daemon: which surface answers a request, and who may ask.

use crate::env::{trimmed_non_empty, Env};
use crate::json::text_view;
use crate::text::{
    begins, decimal, decimal_reads_back, find_char, first_at, numerals_are_trimmed, parse_u16,
    parse_usize, same, split, split_on, starts_with, strip_prefix, text_from_utf8, to_chars, trim, trimmed, unsigned_value, views,
};
use vstd::prelude::*;
use vstd::utf8::{
    decode_utf8, encode_scalar, encode_utf8, encode_utf8_decode_utf8, encode_utf8_valid_utf8,
    valid_utf8,
};

verus! {

/// Port where `MNEMOS_MCP_PORT` gives none.
pub const DEFAULT_MCP_PORT: u16 = 4545;

/// Host where `MNEMOS_MCP_HOST` gives none.
pub const DEFAULT_MCP_HOST: &'static str = "127.0.0.1";

/// Path of the protocol tools.
pub const PROTOCOL_PATH: &'static str = "/mcp";

/// Path of the tool set.
pub const TOOLS_PATH: &'static str = "/mcp/tools";

/// Path of the single tool.
pub const CLI_PATH: &'static str = "/mcp/cli";

/// Path of the command calls of the shell.
pub const CLI_RPC_PATH: &'static str = "/cli";

/// Path of the liveness probe.
pub const HEALTH_PATH: &'static str = "/health";

/// Path of the tool catalog.
pub const TOOLS_LIST_PATH: &'static str = "/tools";

/// Which tool service a path leads to.
#[derive(Clone, Copy, Debug, PartialEq, Eq, Structural)]
pub enum ServiceKey {
    Protocol,
    Tools,
    Cli,
}

/// A character that ends a path.
pub open spec fn ends_path(c: char) -> bool {
    c == '?' || c == '#'
}

/// A path without its query and fragment.
pub open spec fn bare_path(s: Seq<char>) -> Seq<char>
    decreases s.len(),
{
    if s.len() == 0 {
        s
    } else if ends_path(s[0]) {
        Seq::empty()
    } else {
        seq![s[0]] + bare_path(s.skip(1))
    }
}

proof fn lemma_bare_path(s: Seq<char>, k: int)
    requires
        0 <= k <= s.len(),
        forall|i: int| 0 <= i < k ==> !ends_path(#[trigger] s[i]),
        k < s.len() ==> ends_path(s[k]),
    ensures
        bare_path(s) == s.take(k),
    decreases k,
{
    if k == 0 {
        assert(s.take(0) =~= Seq::empty());
        if s.len() == 0 {
            assert(s =~= Seq::empty());
        }
    } else {
        let t = s.skip(1);
        assert forall|i: int| 0 <= i < k - 1 implies !ends_path(#[trigger] t[i]) by {
            assert(t[i] == s[i + 1]);
        }
        lemma_bare_path(t, k - 1);
        assert(!ends_path(s[0]));
        assert(seq![s[0]] + t.take(k - 1) =~= s.take(k));
    }
}

/// A path without its query and fragment.
pub fn clean_path(path: &str) -> (r: &str)
    ensures
        r@ == bare_path(path@),
{
    let chars = to_chars(path);
    let mut k: usize = 0;
    while k < chars.len() && chars[k] != '?' && chars[k] != '#'
        invariant
            k <= chars@.len(),
            chars@ == path@,
            forall|i: int| 0 <= i < k ==> !ends_path(#[trigger] path@[i]),
        decreases chars@.len() - k,
    {
        k += 1;
    }
    proof {
        lemma_bare_path(path@, k as int);
        assert(path@.take(k as int) =~= path@.subrange(0, k as int));
    }
    path.substring_char(0, k)
}

/// The service at a path.
pub open spec fn service_at(path: Seq<char>) -> Option<ServiceKey> {
    let p = bare_path(path);
    if p == PROTOCOL_PATH@ {
        Some(ServiceKey::Protocol)
    } else if p == TOOLS_PATH@ {
        Some(ServiceKey::Tools)
    } else if p == CLI_PATH@ {
        Some(ServiceKey::Cli)
    } else {
        None
    }
}

/// The service at a path, without regard to its query and fragment.
pub fn route_for_path(path: &str) -> (r: Option<ServiceKey>)
    ensures
        r == service_at(path@),
{
    let p = clean_path(path);
    if same(p, PROTOCOL_PATH) {
        Some(ServiceKey::Protocol)
    } else if same(p, TOOLS_PATH) {
        Some(ServiceKey::Tools)
    } else if same(p, CLI_PATH) {
        Some(ServiceKey::Cli)
    } else {
        None
    }
}

/// A query or a fragment never changes where a path leads.
pub proof fn query_does_not_reroute(path: Seq<char>, tail: Seq<char>)
    requires
        tail.len() > 0,
        ends_path(tail[0]),
        forall|i: int| 0 <= i < path.len() ==> !ends_path(#[trigger] path[i]),
    ensures
        bare_path(path + tail) == path,
        bare_path(path) == path,
        service_at(path + tail) == service_at(path),
{
    let s = path + tail;
    assert forall|i: int| 0 <= i < path.len() implies !ends_path(#[trigger] s[i]) by {
        assert(s[i] == path[i]);
    }
    lemma_bare_path(s, path.len() as int);
    assert(s.take(path.len() as int) =~= path);
    lemma_bare_path(path, path.len() as int);
    assert(path.take(path.len() as int) =~= path);
}

/// The port that a setting gives.
pub open spec fn port_in(raw: Option<Seq<char>>) -> nat {
    match raw {
        Some(s) => match unsigned_value(trimmed(s), u16::MAX as nat) {
            Some(n) => n,
            None => DEFAULT_MCP_PORT as nat,
        },
        None => DEFAULT_MCP_PORT as nat,
    }
}

/// Reads a port, with a fallback to [`DEFAULT_MCP_PORT`].
pub fn parse_port(raw: Option<&str>) -> (r: u16)
    ensures
        r == port_in(text_view(raw)),
{
    match raw {
        Some(s) => match parse_u16(trim(s)) {
            Some(n) => n,
            None => DEFAULT_MCP_PORT,
        },
        None => DEFAULT_MCP_PORT,
    }
}

/// The host that a setting gives.
pub open spec fn host_in(raw: Option<Seq<char>>) -> Seq<char> {
    match trimmed_non_empty(raw) {
        Some(s) => s,
        None => DEFAULT_MCP_HOST@,
    }
}

/// Reads a host, with a fallback to [`DEFAULT_MCP_HOST`].
pub fn parse_host(raw: Option<&str>) -> (r: String)
    ensures
        r@ == host_in(text_view(raw)),
{
    match raw {
        Some(s) => {
            let t = trim(s);
            if t.is_empty() {
                DEFAULT_MCP_HOST.to_owned()
            } else {
                t.to_owned()
            }
        },
        None => DEFAULT_MCP_HOST.to_owned(),
    }
}

/// The port from `MNEMOS_MCP_PORT`.
pub fn mcp_port_from_env(env: &Env) -> (r: u16)
    ensures
        r == port_in(env.value("MNEMOS_MCP_PORT"@)),
{
    parse_port(env.get("MNEMOS_MCP_PORT"))
}

/// The host from `MNEMOS_MCP_HOST`.
pub fn mcp_host_from_env(env: &Env) -> (r: String)
    ensures
        r@ == host_in(env.value("MNEMOS_MCP_HOST"@)),
{
    parse_host(env.get("MNEMOS_MCP_HOST"))
}

/// The bearer token from `MNEMOS_MCP_TOKEN`; none means open access.
pub fn mcp_token_from_env(env: &Env) -> (r: Option<String>)
    ensures
        match r {
            Some(t) => trimmed_non_empty(env.value("MNEMOS_MCP_TOKEN"@)) == Some(t@),
            None => trimmed_non_empty(env.value("MNEMOS_MCP_TOKEN"@)) is None,
        },
{
    env.get_trimmed("MNEMOS_MCP_TOKEN")
}

/// The URL at which the daemon answers.
pub fn daemon_base_url(env: &Env) -> (r: String)
    ensures
        r@ == "http://"@ + host_in(env.value("MNEMOS_MCP_HOST"@)) + ":"@ + crate::text::decimal(
            port_in(env.value("MNEMOS_MCP_PORT"@)),
        ),
{
    let host = mcp_host_from_env(env);
    let port = crate::text::show_u64(mcp_port_from_env(env) as u64);
    "http://".to_owned().concat(host.as_str()).concat(":").concat(port.as_str())
}

/// The token that an `Authorization` header carries.
pub open spec fn bearer_in(header: Option<Seq<char>>) -> Option<Seq<char>> {
    match header {
        Some(h) => if begins(h, "Bearer "@) {
            Some(trimmed(h.skip("Bearer "@.len() as int)))
        } else {
            None
        },
        None => None,
    }
}

/// No token is required, or the header carries the required one.
pub open spec fn admits(header: Option<Seq<char>>, token: Option<Seq<char>>) -> bool {
    match token {
        Some(t) => t.len() == 0 || bearer_in(header) == Some(t),
        None => true,
    }
}

/// Whether a request may pass: no token is required, or its header carries the
/// required one.
pub fn is_authorized(header: Option<&str>, token: Option<&str>) -> (r: bool)
    ensures
        r == admits(text_view(header), text_view(token)),
{
    match token {
        None => true,
        Some(expected) => {
            if expected.is_empty() {
                return true;
            }
            match header {
                Some(h) => match strip_prefix(h, "Bearer ") {
                    Some(rest) => same(trim(rest), expected),
                    None => false,
                },
                None => false,
            }
        },
    }
}

/// The command that a path mirrors.
pub open spec fn mirrored_at(path: Seq<char>) -> Option<Seq<char>> {
    if path == "/ingest"@ {
        Some("ingest"@)
    } else if path == "/recall"@ {
        Some("recall"@)
    } else if path == "/reward"@ {
        Some("reward"@)
    } else if path == "/consolidate"@ {
        Some("consolidate"@)
    } else if path == "/setup"@ {
        Some("setup"@)
    } else if path == "/stats"@ {
        Some("stats"@)
    } else if path == "/status"@ {
        Some("status"@)
    } else if path == "/train-reranker"@ {
        Some("train-reranker"@)
    } else if path == "/help"@ {
        Some("help"@)
    } else {
        None
    }
}

/// The command that a path mirrors. Process modes have no path.
pub fn mirror_command(path: &str) -> (r: Option<&'static str>)
    ensures
        text_view(r) == mirrored_at(path@),
{
    if same(path, "/ingest") {
        Some("ingest")
    } else if same(path, "/recall") {
        Some("recall")
    } else if same(path, "/reward") {
        Some("reward")
    } else if same(path, "/consolidate") {
        Some("consolidate")
    } else if same(path, "/setup") {
        Some("setup")
    } else if same(path, "/stats") {
        Some("stats")
    } else if same(path, "/status") {
        Some("status")
    } else if same(path, "/train-reranker") {
        Some("train-reranker")
    } else if same(path, "/help") {
        Some("help")
    } else {
        None
    }
}

/// The method of a request, as far as it matters.
#[derive(Clone, Copy, Debug, PartialEq, Eq, Structural)]
pub enum Method {
    Get,
    Post,
    Delete,
    Other,
}

/// Where a request goes.
#[derive(Clone, Copy, Debug, PartialEq, Eq, Structural)]
pub enum Route {
    /// The bearer token is missing or wrong.
    Unauthorized,
    /// Answer that the daemon is up.
    Health,
    /// A command in the body.
    CliRpc,
    /// A command in the path; see [`mirror_command`].
    Mirror,
    /// The tool catalog.
    Catalog,
    /// One of the telemetry paths; see [`telemetry_request`].
    Telemetry,
    /// One of the tool services.
    Service(ServiceKey),
    /// The path does not take the method.
    MethodNotAllowed,
    NotFound,
}

/// Where a request goes.
pub open spec fn route_of(path: Seq<char>, method: Method, authorized: bool) -> Route {
    let p = bare_path(path);
    if !authorized {
        Route::Unauthorized
    } else if p == HEALTH_PATH@ {
        if method == Method::Get {
            Route::Health
        } else {
            Route::MethodNotAllowed
        }
    } else if p == CLI_RPC_PATH@ {
        if method == Method::Post {
            Route::CliRpc
        } else {
            Route::MethodNotAllowed
        }
    } else if mirrored_at(p) is Some {
        Route::Mirror
    } else if p == TOOLS_LIST_PATH@ {
        if method == Method::Get {
            Route::Catalog
        } else {
            Route::MethodNotAllowed
        }
    } else if begins(p, "/telemetry"@) {
        Route::Telemetry
    } else {
        match service_at(path) {
            Some(key) => Route::Service(key),
            None => Route::NotFound,
        }
    }
}

/// Decides where a request goes: the token first, then the daemon's own paths,
/// then the tool services.
pub fn route_request(path: &str, method: Method, authorized: bool) -> (r: Route)
    ensures
        r == route_of(path@, method, authorized),
{
    if !authorized {
        return Route::Unauthorized;
    }
    let p = clean_path(path);
    if same(p, HEALTH_PATH) {
        if method == Method::Get {
            Route::Health
        } else {
            Route::MethodNotAllowed
        }
    } else if same(p, CLI_RPC_PATH) {
        if method == Method::Post {
            Route::CliRpc
        } else {
            Route::MethodNotAllowed
        }
    } else if mirror_command(p).is_some() {
        Route::Mirror
    } else if same(p, TOOLS_LIST_PATH) {
        if method == Method::Get {
            Route::Catalog
        } else {
            Route::MethodNotAllowed
        }
    } else if starts_with(p, "/telemetry") {
        Route::Telemetry
    } else {
        match route_for_path(path) {
            Some(key) => Route::Service(key),
            None => Route::NotFound,
        }
    }
}

/// Without authorization nothing but a refusal is reached.
pub proof fn unauthorized_reaches_nothing(path: Seq<char>, method: Method)
    ensures
        route_of(path, method, false) == Route::Unauthorized,
{
}

/// What stands in `s` before the first `c`; all of it where there is none.
pub open spec fn until(s: Seq<char>, c: char) -> Seq<char>
    decreases s.len(),
{
    if s.len() == 0 || s[0] == c {
        Seq::empty()
    } else {
        seq![s[0]] + until(s.skip(1), c)
    }
}

/// What stands in `s` after the first `c`; nothing where there is none.
pub open spec fn beyond(s: Seq<char>, c: char) -> Seq<char>
    decreases s.len(),
{
    if s.len() == 0 {
        Seq::empty()
    } else if s[0] == c {
        s.skip(1)
    } else {
        beyond(s.skip(1), c)
    }
}

/// The pairs of a query, in order and without decoding.
pub open spec fn query_pairs(query: Option<Seq<char>>) -> Seq<(Seq<char>, Seq<char>)> {
    split_on(crate::env::or_else(query, Seq::empty()), '&').map_values(
        |p: Seq<char>| (until(p, '='), beyond(p, '=')),
    )
}

/// Pairs by value.
pub open spec fn pair_views(pairs: Seq<(String, String)>) -> Seq<(Seq<char>, Seq<char>)> {
    pairs.map_values(|p: (String, String)| (p.0@, p.1@))
}

proof fn lemma_cut(s: Seq<char>, c: char, k: int)
    requires
        first_at(s, c, k),
    ensures
        until(s, c) == s.take(k),
        beyond(s, c) == s.skip(k + 1),
    decreases k,
{
    if k == 0 {
        assert(s.take(0) =~= Seq::empty());
    } else {
        let t = s.skip(1);
        assert(s[0] != c);
        assert(first_at(t, c, k - 1));
        lemma_cut(t, c, k - 1);
        assert(seq![s[0]] + t.take(k - 1) =~= s.take(k));
        assert(t.skip(k) =~= s.skip(k + 1));
    }
}

proof fn lemma_no_cut(s: Seq<char>, c: char)
    requires
        !s.contains(c),
    ensures
        until(s, c) == s,
        beyond(s, c).len() == 0,
    decreases s.len(),
{
    if s.len() > 0 {
        let t = s.skip(1);
        assert(s.contains(s[0]));
        if t.contains(c) {
            let i = t.index_of(c);
            assert(s[i + 1] == c);
        }
        lemma_no_cut(t, c);
        assert(seq![s[0]] + t =~= s);
    } else {
        assert(s =~= Seq::empty());
    }
}

/// Splits one pair of a query.
fn split_pair(pair: &str) -> (r: (String, String))
    ensures
        r.0@ == until(pair@, '='),
        r.1@ == beyond(pair@, '='),
{
    match find_char(pair, '=') {
        Some(k) => {
            let n: usize = pair.unicode_len();
            let key = pair.substring_char(0, k);
            let value = pair.substring_char(k + 1, n);
            proof {
                lemma_cut(pair@, '=', k as int);
                assert(key@ =~= pair@.take(k as int));
                assert(value@ =~= pair@.skip(k + 1));
            }
            (key.to_owned(), value.to_owned())
        },
        None => {
            let nothing = String::new();
            proof {
                lemma_no_cut(pair@, '=');
                assert(nothing@ =~= beyond(pair@, '='));
            }
            (pair.to_owned(), nothing)
        },
    }
}

/// The pairs of a query string, in order and without decoding. Where a key
/// occurs twice, the later pair counts.
pub fn parse_query(query: Option<&str>) -> (r: Vec<(String, String)>)
    ensures
        pair_views(r@) == query_pairs(text_view(query)),
{
    let empty = String::new();
    let text = match query {
        Some(q) => q,
        None => empty.as_str(),
    };
    proof {
        if query is None {
            assert(text@ =~= Seq::empty());
        }
    }
    let pairs = split(text, '&');
    let mut out: Vec<(String, String)> = Vec::new();
    let mut i: usize = 0;
    while i < pairs.len()
        invariant
            i <= pairs@.len(),
            out@.len() == i,
            forall|j: int|
                0 <= j < i ==> (#[trigger] out@[j]).0@ == until(views(pairs@)[j], '=') && out@[j].1@
                    == beyond(views(pairs@)[j], '='),
        decreases pairs@.len() - i,
    {
        let pair = split_pair(pairs[i].as_str());
        out.push(pair);
        i += 1;
    }
    assert(pair_views(out@) =~= query_pairs(text_view(query)));
    out
}

/// The value of a hexadecimal digit, given as a byte.
pub open spec fn hex_value(b: u8) -> Option<u8> {
    if 0x30 <= b <= 0x39 {
        Some((b - 0x30) as u8)
    } else if 0x41 <= b <= 0x46 {
        Some((b - 0x41 + 10) as u8)
    } else if 0x61 <= b <= 0x66 {
        Some((b - 0x61 + 10) as u8)
    } else {
        None
    }
}

fn hex_digit(b: u8) -> (r: Option<u8>)
    ensures
        r == hex_value(b),
        r matches Some(v) ==> v < 16,
{
    if 0x30 <= b && b <= 0x39 {
        Some(b - 0x30)
    } else if 0x41 <= b && b <= 0x46 {
        Some(b - 0x41 + 10)
    } else if 0x61 <= b && b <= 0x66 {
        Some(b - 0x61 + 10)
    } else {
        None
    }
}

/// The byte that an escape at the start of `s` writes: a percent sign and two
/// hexadecimal digits.
pub open spec fn escape_at_start(s: Seq<u8>) -> Option<u8> {
    if s.len() >= 3 && s[0] == 0x25 {
        match (hex_value(s[1]), hex_value(s[2])) {
            (Some(high), Some(low)) => Some((high * 16 + low) as u8),
            _ => None,
        }
    } else {
        None
    }
}

/// `s` with every escape replaced by the byte that it writes. A percent sign that
/// begins none stays.
pub open spec fn unescaped(s: Seq<u8>) -> Seq<u8>
    decreases s.len(),
{
    if s.len() == 0 {
        Seq::empty()
    } else {
        match escape_at_start(s) {
            Some(b) => seq![b] + unescaped(s.skip(3)),
            None => seq![s[0]] + unescaped(s.skip(1)),
        }
    }
}

/// A text with its escapes decoded. Where they do not write UTF-8, the text stays
/// as it is.
pub open spec fn decoded(s: Seq<char>) -> Seq<char> {
    let bytes = unescaped(encode_utf8(s));
    if valid_utf8(bytes) {
        decode_utf8(bytes)
    } else {
        s
    }
}

/// Decodes the escapes of a text.
pub fn decode(s: &str) -> (r: String)
    ensures
        r@ == decoded(s@),
{
    let bytes = s.as_bytes();
    let ghost all = bytes@;
    let n: usize = bytes.len();
    let mut out: Vec<u8> = Vec::new();
    let mut i: usize = 0;
    assert(all.skip(0) =~= all);
    while i < n
        invariant
            i <= n,
            n == bytes@.len(),
            all == bytes@,
            out@ + unescaped(all.skip(i as int)) == unescaped(all),
        decreases n - i,
    {
        let ghost before = out@;
        let ghost rest = all.skip(i as int);
        let mut byte: u8 = bytes[i];
        let mut step: usize = 1;
        assert(rest[0] == byte);
        if byte == 0x25 && n - i >= 3 {
            assert(rest[1] == all[i + 1] && rest[2] == all[i + 2]);
            if let (Some(high), Some(low)) = (hex_digit(bytes[i + 1]), hex_digit(bytes[i + 2])) {
                byte = high * 16 + low;
                step = 3;
            }
        }
        out.push(byte);
        i += step;
        proof {
            assert(rest.skip(step as int) =~= all.skip(i as int));
            assert(unescaped(rest) == seq![byte] + unescaped(all.skip(i as int)));
            assert(out@ + unescaped(all.skip(i as int)) =~= before + unescaped(rest));
        }
    }
    assert(all.skip(n as int).len() == 0);
    assert(out@ =~= unescaped(all));
    match text_from_utf8(out) {
        Some(text) => text,
        None => s.to_owned(),
    }
}

proof fn lemma_nothing_unescaped(s: Seq<u8>)
    requires
        forall|i: int| 0 <= i < s.len() ==> s[i] != 0x25,
    ensures
        unescaped(s) == s,
    decreases s.len(),
{
    if s.len() > 0 {
        lemma_nothing_unescaped(s.skip(1));
        assert(seq![s[0]] + s.skip(1) =~= s);
    } else {
        assert(s =~= Seq::empty());
    }
}

proof fn lemma_bytes_of_a_character(c: u32)
    requires
        c != 0x25,
    ensures
        forall|i: int| 0 <= i < encode_scalar(c).len() ==> #[trigger] encode_scalar(c)[i] != 0x25,
{
    assert(c <= 0x7F && c != 0x25 ==> (c & 0x7F) as u8 != 0x25) by (bit_vector);
    assert(0xC0 | ((c >> 6) & 0x1F) as u8 != 0x25) by (bit_vector);
    assert(0xE0 | ((c >> 12) & 0x0F) as u8 != 0x25) by (bit_vector);
    assert(0xF0 | ((c >> 18) & 0x7) as u8 != 0x25) by (bit_vector);
    assert(0x80 | (c & 0x3F) as u8 != 0x25) by (bit_vector);
    assert(0x80 | ((c >> 6) & 0x3F) as u8 != 0x25) by (bit_vector);
    assert(0x80 | ((c >> 12) & 0x3F) as u8 != 0x25) by (bit_vector);
}

proof fn lemma_no_percent_byte(s: Seq<char>)
    requires
        !s.contains('%'),
    ensures
        forall|i: int| 0 <= i < encode_utf8(s).len() ==> #[trigger] encode_utf8(s)[i] != 0x25,
    decreases s.len(),
{
    if s.len() > 0 {
        let rest = s.drop_first();
        assert(s[0] != '%') by {
            assert(s.contains(s[0]));
        }
        assert(!rest.contains('%')) by {
            if rest.contains('%') {
                let i = rest.index_of('%');
                assert(s[i + 1] == '%');
            }
        }
        if s[0] as u32 == 0x25 {
            vstd::utf8::char_u32_cast(s[0], 0x25);
            vstd::utf8::char_u32_cast('%', 0x25);
        }
        lemma_bytes_of_a_character(s[0] as u32);
        lemma_no_percent_byte(rest);
        let head = encode_scalar(s[0] as u32);
        assert forall|i: int| 0 <= i < encode_utf8(s).len() implies #[trigger] encode_utf8(s)[i]
            != 0x25 by {
            if i < head.len() {
                assert(encode_utf8(s)[i] == head[i]);
            } else {
                assert(encode_utf8(s)[i] == encode_utf8(rest)[i - head.len()]);
            }
        }
    }
}

/// A text without a percent sign is decoded to itself.
pub proof fn plain_texts_stay(s: Seq<char>)
    requires
        !s.contains('%'),
    ensures
        decoded(s) == s,
{
    broadcast use encode_utf8_valid_utf8, encode_utf8_decode_utf8;

    lemma_no_percent_byte(s);
    lemma_nothing_unescaped(encode_utf8(s));
}

/// The hexadecimal digit of a value below sixteen, as a byte.
pub open spec fn hex_byte(v: u8) -> u8 {
    if v < 10 {
        (0x30 + v) as u8
    } else {
        (0x41 + (v - 10)) as u8
    }
}

/// `bytes` with each of them written as an escape.
pub open spec fn escaped(bytes: Seq<u8>) -> Seq<u8>
    decreases bytes.len(),
{
    if bytes.len() == 0 {
        Seq::empty()
    } else {
        seq![0x25u8, hex_byte(bytes[0] / 16), hex_byte(bytes[0] % 16)] + escaped(bytes.skip(1))
    }
}

proof fn lemma_unescaped_escapes(bytes: Seq<u8>)
    ensures
        unescaped(escaped(bytes)) == bytes,
    decreases bytes.len(),
{
    if bytes.len() > 0 {
        let written = escaped(bytes);
        let rest = escaped(bytes.skip(1));
        lemma_unescaped_escapes(bytes.skip(1));
        assert(written.skip(3) =~= rest);
        assert(escape_at_start(written) == Some(bytes[0]));
        assert(seq![bytes[0]] + bytes.skip(1) =~= bytes);
    } else {
        assert(bytes =~= Seq::empty());
    }
}

/// Decoding undoes escaping: where `t` writes every byte of `s` as an escape, it
/// is decoded to `s`.
pub proof fn decoding_undoes_escaping(s: Seq<char>, t: Seq<char>)
    requires
        encode_utf8(t) == escaped(encode_utf8(s)),
    ensures
        decoded(t) == s,
{
    broadcast use encode_utf8_valid_utf8, encode_utf8_decode_utf8;

    lemma_unescaped_escapes(encode_utf8(s));
}

/// The value under `key`; the last pair counts.
pub open spec fn query_value(pairs: Seq<(String, String)>, key: Seq<char>) -> Option<Seq<char>> {
    crate::env::var_in(pairs, key)
}

/// What a telemetry path asks for.
#[derive(Debug)]
pub enum TelemetryRequest {
    Snapshot,
    Diagnose,
    Counters,
    Events,
    Weights,
    System,
    Files,
    /// A page of one day's events, all of them or only those with this outcome.
    File { date: String, limit: usize, offset: usize, ok_only: Option<bool> },
    DeleteFile { date: String },
    MethodNotAllowed,
    NotFound,
}

/// The number that a query value writes, or `fallback`.
pub open spec fn number_or(value: Option<Seq<char>>, fallback: usize) -> nat {
    match value {
        Some(v) => match unsigned_value(v, usize::MAX as nat) {
            Some(n) => n,
            None => fallback as nat,
        },
        None => fallback as nat,
    }
}

fn number_under(query: &Env, key: &str, fallback: usize) -> (r: usize)
    ensures
        r == number_or(query.value(key@), fallback),
{
    match query.get(key) {
        Some(v) => match parse_usize(v) {
            Some(n) => n,
            None => fallback,
        },
        None => fallback,
    }
}

/// `r` is what a telemetry path asks for.
pub open spec fn telemetry_request_is(
    path: Seq<char>,
    method: Method,
    query: Seq<(String, String)>,
    r: TelemetryRequest,
) -> bool {
    let date = crate::env::or_else(query_value(query, "date"@), ""@);
    if path == "/telemetry/file"@ && method == Method::Delete {
        r matches TelemetryRequest::DeleteFile { date: d } && d@ == date
    } else if method != Method::Get {
        r is MethodNotAllowed
    } else if path == "/telemetry"@ {
        r is Snapshot
    } else if path == "/telemetry/diagnose"@ {
        r is Diagnose
    } else if path == "/telemetry/counters"@ {
        r is Counters
    } else if path == "/telemetry/events"@ {
        r is Events
    } else if path == "/telemetry/weights"@ {
        r is Weights
    } else if path == "/telemetry/system"@ {
        r is System
    } else if path == "/telemetry/files"@ {
        r is Files
    } else if path == "/telemetry/file"@ {
        r matches TelemetryRequest::File { date: d, limit, offset, ok_only } && d@ == date && limit
            == number_or(query_value(query, "limit"@), 200) && offset == number_or(
            query_value(query, "offset"@),
            0,
        ) && ok_only == match query_value(query, "ok"@) {
            Some(s) => Some(s == "true"@ || s == "1"@),
            None => None,
        }
    } else {
        r is NotFound
    }
}

/// What a telemetry path asks for. `path` is without query and fragment.
pub fn telemetry_request(path: &str, method: Method, pairs: Vec<(String, String)>) -> (r:
    TelemetryRequest)
    ensures
        telemetry_request_is(path@, method, pairs@, r),
{
    let query = Env { vars: pairs };
    let date = query.get_or("date", "");
    if same(path, "/telemetry/file") && method == Method::Delete {
        return TelemetryRequest::DeleteFile { date };
    }
    if method != Method::Get {
        return TelemetryRequest::MethodNotAllowed;
    }
    if same(path, "/telemetry") {
        TelemetryRequest::Snapshot
    } else if same(path, "/telemetry/diagnose") {
        TelemetryRequest::Diagnose
    } else if same(path, "/telemetry/counters") {
        TelemetryRequest::Counters
    } else if same(path, "/telemetry/events") {
        TelemetryRequest::Events
    } else if same(path, "/telemetry/weights") {
        TelemetryRequest::Weights
    } else if same(path, "/telemetry/system") {
        TelemetryRequest::System
    } else if same(path, "/telemetry/files") {
        TelemetryRequest::Files
    } else if same(path, "/telemetry/file") {
        let limit: usize = number_under(&query, "limit", 200);
        let offset: usize = number_under(&query, "offset", 0);
        let ok_only = match query.get("ok") {
            Some(s) => Some(same(s, "true") || same(s, "1")),
            None => None,
        };
        TelemetryRequest::File { date, limit, offset, ok_only }
    } else {
        TelemetryRequest::NotFound
    }
}

/// A required token admits the header that bears it and no other: not a missing
/// header, not another scheme, not another token.
pub proof fn only_the_token_admits(header: Option<Seq<char>>, token: Seq<char>, other: Seq<char>)
    requires
        token.len() > 0,
        trimmed(token) == token,
        trimmed(other) == other,
        other != token,
    ensures
        admits(Some("Bearer "@ + token), Some(token)),
        !admits(Some("Bearer "@ + other), Some(token)),
        !admits(None, Some(token)),
        header matches Some(h) && !("Bearer "@.is_prefix_of(h)) ==> !admits(header, Some(token)),
        admits(header, None),
{
    let n = "Bearer "@.len() as int;
    let right = "Bearer "@ + token;
    let wrong = "Bearer "@ + other;
    assert(right.take(n) =~= "Bearer "@);
    assert(wrong.take(n) =~= "Bearer "@);
    assert(right.skip(n) =~= token);
    assert(wrong.skip(n) =~= other);
    if let Some(h) = header {
        if begins(h, "Bearer "@) {
            assert("Bearer "@.is_prefix_of(h));
        }
    }
}

/// A mirrored path is a slash and the name of its command.
pub proof fn mirrors_are_named_for_their_command(path: Seq<char>)
    ensures
        mirrored_at(path) matches Some(c) ==> path == "/"@ + c,
{
    reveal_strlit("/");
    reveal_strlit("/ingest");
    reveal_strlit("ingest");
    reveal_strlit("/recall");
    reveal_strlit("recall");
    reveal_strlit("/reward");
    reveal_strlit("reward");
    reveal_strlit("/consolidate");
    reveal_strlit("consolidate");
    reveal_strlit("/setup");
    reveal_strlit("setup");
    reveal_strlit("/stats");
    reveal_strlit("stats");
    reveal_strlit("/status");
    reveal_strlit("status");
    reveal_strlit("/train-reranker");
    reveal_strlit("train-reranker");
    reveal_strlit("/help");
    reveal_strlit("help");
    assert("/ingest"@ =~= "/"@ + "ingest"@);
    assert("/recall"@ =~= "/"@ + "recall"@);
    assert("/reward"@ =~= "/"@ + "reward"@);
    assert("/consolidate"@ =~= "/"@ + "consolidate"@);
    assert("/setup"@ =~= "/"@ + "setup"@);
    assert("/stats"@ =~= "/"@ + "stats"@);
    assert("/status"@ =~= "/"@ + "status"@);
    assert("/train-reranker"@ =~= "/"@ + "train-reranker"@);
    assert("/help"@ =~= "/"@ + "help"@);
}

/// Nine commands are mirrored, and no other path is.
pub proof fn nine_commands_are_mirrored(path: Seq<char>)
    ensures
        mirrored_at(path) is Some <==> seq![
            "/ingest"@,
            "/recall"@,
            "/reward"@,
            "/consolidate"@,
            "/setup"@,
            "/stats"@,
            "/status"@,
            "/train-reranker"@,
            "/help"@,
        ].contains(path),
{
    let all = seq![
        "/ingest"@,
        "/recall"@,
        "/reward"@,
        "/consolidate"@,
        "/setup"@,
        "/stats"@,
        "/status"@,
        "/train-reranker"@,
        "/help"@,
    ];
    assert(all[0] == "/ingest"@ && all[1] == "/recall"@ && all[2] == "/reward"@);
    assert(all[3] == "/consolidate"@ && all[4] == "/setup"@ && all[5] == "/stats"@);
    assert(all[6] == "/status"@ && all[7] == "/train-reranker"@ && all[8] == "/help"@);
}

/// An authorized request reaches what its path names, whatever its query: the
/// probe and the catalog by `GET`, the command calls by `POST`, and the mirrored
/// commands by any method.
pub proof fn paths_lead_where_they_say(path: Seq<char>, method: Method)
    ensures
        bare_path(path) == "/health"@ ==> route_of(path, method, true) == if method is Get {
            Route::Health
        } else {
            Route::MethodNotAllowed
        },
        bare_path(path) == "/cli"@ ==> route_of(path, method, true) == if method is Post {
            Route::CliRpc
        } else {
            Route::MethodNotAllowed
        },
        bare_path(path) == "/tools"@ ==> route_of(path, method, true) == if method is Get {
            Route::Catalog
        } else {
            Route::MethodNotAllowed
        },
        bare_path(path) == "/mcp"@ ==> route_of(path, method, true) == Route::Service(
            ServiceKey::Protocol,
        ),
        bare_path(path) == "/mcp/tools"@ ==> route_of(path, method, true) == Route::Service(
            ServiceKey::Tools,
        ),
        bare_path(path) == "/mcp/cli"@ ==> route_of(path, method, true) == Route::Service(
            ServiceKey::Cli,
        ),
        mirrored_at(bare_path(path)) is Some ==> route_of(path, method, true) == Route::Mirror,
        bare_path(path) == "/telemetry"@ ==> route_of(path, method, true) == Route::Telemetry,
{
    let p = bare_path(path);
    reveal_strlit("/health");
    reveal_strlit("/cli");
    reveal_strlit("/tools");
    reveal_strlit("/mcp");
    reveal_strlit("/mcp/tools");
    reveal_strlit("/mcp/cli");
    reveal_strlit("/telemetry");
    reveal_strlit("/ingest");
    reveal_strlit("/recall");
    reveal_strlit("/reward");
    reveal_strlit("/consolidate");
    reveal_strlit("/setup");
    reveal_strlit("/stats");
    reveal_strlit("/status");
    reveal_strlit("/train-reranker");
    reveal_strlit("/help");
    assert("/health"@[1] == 'h' && "/help"@.len() == 5 && "/health"@.len() == 7);
    assert("/cli"@[1] == 'c' && "/cli"@.len() == 4);
    assert("/tools"@[1] == 't' && "/tools"@[2] == 'o' && "/tools"@.len() == 6);
    assert("/mcp"@[1] == 'm' && "/mcp"@.len() == 4);
    assert("/mcp/tools"@[1] == 'm' && "/mcp/tools"@.len() == 10);
    assert("/mcp/cli"@[1] == 'm' && "/mcp/cli"@.len() == 8);
    assert("/telemetry"@[1] == 't' && "/telemetry"@[2] == 'e' && "/telemetry"@.len() == 10);
    assert("/ingest"@[1] == 'i');
    assert("/recall"@[1] == 'r');
    assert("/reward"@[1] == 'r');
    assert("/consolidate"@[1] == 'c' && "/consolidate"@.len() == 12);
    assert("/setup"@[1] == 's');
    assert("/stats"@[1] == 's');
    assert("/status"@[1] == 's');
    assert("/train-reranker"@[1] == 't' && "/train-reranker"@.len() == 15);
    assert("/help"@[1] == 'h');
    assert(p.take(p.len() as int) =~= p);
    if p == "/mcp"@ || p == "/mcp/tools"@ || p == "/mcp/cli"@ {
        if begins(p, "/telemetry"@) {
            assert(p.take(10)[1] == p[1]);
        }
    }
    if p == "/telemetry"@ {
        assert(begins(p, "/telemetry"@));
    }
}

/// A port is the number that its setting writes, and 4545 where it writes none
/// that a port can be.
pub proof fn ports_are_what_is_written(n: nat, raw: Option<Seq<char>>)
    ensures
        n <= 65535 ==> port_in(Some(decimal(n))) == n,
        n > 65535 ==> port_in(Some(decimal(n))) == 4545,
        port_in(None) == 4545,
        port_in(raw) <= 65535,
{
    numerals_are_trimmed(n);
    if n <= 65535 {
        decimal_reads_back(n, 65535);
    } else {
        decimal_reads_back(n, n);
        lemma_too_large(decimal(n), n);
    }
}

proof fn lemma_too_large(s: Seq<char>, n: nat)
    requires
        n > 65535,
        unsigned_value(s, n) == Some(n),
    ensures
        unsigned_value(s, 65535) is None,
{
}

/// A host is its setting without outer white space; where nothing is left of it,
/// the daemon answers on this machine alone.
pub proof fn hosts_are_local_unless_named(raw: Seq<char>)
    ensures
        host_in(None) == "127.0.0.1"@,
        trimmed(raw).len() == 0 ==> host_in(Some(raw)) == "127.0.0.1"@,
        trimmed(raw).len() > 0 ==> host_in(Some(raw)) == trimmed(raw),
{
}

/// A pair splits at its first equals sign: the key before it, all that follows as
/// the value.
pub proof fn pairs_split_at_the_first_sign(key: Seq<char>, value: Seq<char>)
    requires
        !key.contains('='),
    ensures
        until(key + seq!['='] + value, '=') == key,
        beyond(key + seq!['='] + value, '=') == value,
        until(key, '=') == key,
        beyond(key, '=').len() == 0,
{
    let s = key + seq!['='] + value;
    let k = key.len() as int;
    assert(first_at(s, '=', k)) by {
        assert forall|i: int| 0 <= i < k implies s[i] != '=' by {
            assert(s[i] == key[i]);
            assert(key.contains(key[i]));
        }
    }
    lemma_cut(s, '=', k);
    assert(s.take(k) =~= key);
    assert(s.skip(k + 1) =~= value);
    lemma_no_cut(key, '=');
}

/// A day's events are shown two hundred at a time from the first, unless the query
/// says otherwise.
pub proof fn pages_begin_with_two_hundred(
    query: Seq<(String, String)>,
    r: TelemetryRequest,
)
    requires
        telemetry_request_is("/telemetry/file"@, Method::Get, query, r),
    ensures
        r is File,
        query_value(query, "limit"@) is None ==> r->limit == 200,
        query_value(query, "offset"@) is None ==> r->offset == 0,
        query_value(query, "ok"@) is None ==> r->ok_only is None,
        query_value(query, "ok"@) == Some("true"@) ==> r->ok_only == Some(true),
        query_value(query, "date"@) matches Some(d) ==> r->File_date@ == d,
        query_value(query, "limit"@) matches Some(v) ==> (unsigned_value(v, usize::MAX as nat)
            matches Some(n) ==> r->limit == n),
        query_value(query, "offset"@) matches Some(v) ==> (unsigned_value(v, usize::MAX as nat)
            matches Some(n) ==> r->offset == n),
{
    reveal_strlit("/telemetry/file");
    reveal_strlit("/telemetry");
    reveal_strlit("/telemetry/diagnose");
    reveal_strlit("/telemetry/counters");
    reveal_strlit("/telemetry/events");
    reveal_strlit("/telemetry/weights");
    reveal_strlit("/telemetry/system");
    reveal_strlit("/telemetry/files");
    assert("/telemetry/file"@.len() == 15);
    assert("/telemetry"@.len() == 10);
    assert("/telemetry/diagnose"@.len() == 19);
    assert("/telemetry/counters"@.len() == 19);
    assert("/telemetry/events"@.len() == 17);
    assert("/telemetry/weights"@.len() == 18);
    assert("/telemetry/system"@.len() == 17);
    assert("/telemetry/files"@.len() == 16);
}

/// Only a day's file can be deleted; everything else under telemetry is read by
/// `GET`.
pub proof fn telemetry_is_read_by_get(
    path: Seq<char>,
    method: Method,
    query: Seq<(String, String)>,
    r: TelemetryRequest,
)
    requires
        telemetry_request_is(path, method, query, r),
    ensures
        r is DeleteFile <==> path == "/telemetry/file"@ && method is Delete,
        !(method is Get) && !(r is DeleteFile) ==> r is MethodNotAllowed,
        r is MethodNotAllowed ==> !(method is Get),
{
}

/// A path ends where its query or its fragment begins, and nowhere else.
pub proof fn paths_end_at_a_query_or_a_fragment(path: Seq<char>, tail: Seq<char>)
    requires
        !path.contains('?'),
        !path.contains('#'),
    ensures
        bare_path(path) == path,
        bare_path(path + seq!['?'] + tail) == path,
        bare_path(path + seq!['#'] + tail) == path,
{
    assert forall|i: int| 0 <= i < path.len() implies !ends_path(#[trigger] path[i]) by {
        assert(path.contains(path[i]));
    }
    let query = seq!['?'] + tail;
    let fragment = seq!['#'] + tail;
    query_does_not_reroute(path, query);
    query_does_not_reroute(path, fragment);
    assert(path + query =~= path + seq!['?'] + tail);
    assert(path + fragment =~= path + seq!['#'] + tail);
}

} // verus!
