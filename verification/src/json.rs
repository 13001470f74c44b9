//! JSON values as the library reads and writes them.

use crate::double::Double;
use crate::text::same;
use serde_json::Value;
use vstd::prelude::*;

verus! {

/// A JSON number, kept the way it was written: a whole number that fits `u64`,
/// a negative one that fits `i64`, or any other.
#[derive(Clone, Copy, Debug, PartialEq, Eq, Structural)]
pub enum JsonNumber {
    Unsigned(u64),
    Signed(i64),
    Float(Double),
}

/// A JSON value. The entries of an object keep their order; where a key occurs
/// twice, the later entry counts.
#[derive(Debug)]
pub enum Json {
    Null,
    Bool(bool),
    Number(JsonNumber),
    Text(String),
    Array(Vec<Json>),
    Object(Vec<(String, Json)>),
}

/// The mathematical form of a JSON value.
pub enum JsonView {
    Null,
    Bool(bool),
    Number(JsonNumber),
    Text(Seq<char>),
    Array(Seq<JsonView>),
    Object(Seq<(Seq<char>, JsonView)>),
}

impl Json {
    pub open spec fn view(&self) -> JsonView
        decreases self,
    {
        match self {
            Json::Null => JsonView::Null,
            Json::Bool(b) => JsonView::Bool(*b),
            Json::Number(n) => JsonView::Number(*n),
            Json::Text(s) => JsonView::Text(s@),
            Json::Array(items) => JsonView::Array(
                Seq::new(
                    items@.len(),
                    |i: int|
                        if 0 <= i < items@.len() {
                            items@[i].view()
                        } else {
                            arbitrary()
                        },
                ),
            ),
            Json::Object(entries) => JsonView::Object(
                Seq::new(
                    entries@.len(),
                    |i: int|
                        if 0 <= i < entries@.len() {
                            (entries@[i].0@, entries@[i].1.view())
                        } else {
                            arbitrary()
                        },
                ),
            ),
        }
    }
}

/// The value of the last entry under `key`.
pub open spec fn lookup(entries: Seq<(Seq<char>, JsonView)>, key: Seq<char>) -> Option<JsonView>
    decreases entries.len(),
{
    if entries.len() == 0 {
        None
    } else if entries.last().0 == key {
        Some(entries.last().1)
    } else {
        lookup(entries.drop_last(), key)
    }
}

/// An entry that comes last decides what is found under its key.
pub broadcast proof fn lemma_lookup_push(
    entries: Seq<(Seq<char>, JsonView)>,
    entry: (Seq<char>, JsonView),
    key: Seq<char>,
)
    ensures
        #[trigger] lookup(entries.push(entry), key) == if entry.0 == key {
            Some(entry.1)
        } else {
            lookup(entries, key)
        },
{
    assert(entries.push(entry).drop_last() =~= entries);
}

/// What an object holds is smaller than the object.
pub proof fn lemma_entry_is_smaller(entries: Seq<(Seq<char>, JsonView)>, key: Seq<char>)
    ensures
        lookup(entries, key) matches Some(v) ==> decreases_to!(JsonView::Object(entries) => v),
{
    if let Some(v) = lookup(entries, key) {
        let k = lemma_lookup_place(entries, key);
        let j = JsonView::Object(entries);
        assert(decreases_to!(j => j->Object_0));
        assert(decreases_to!(entries => entries[k]));
        assert(decreases_to!(entries[k] => entries[k].1));
    }
}

proof fn lemma_lookup_place(entries: Seq<(Seq<char>, JsonView)>, key: Seq<char>) -> (k: int)
    requires
        lookup(entries, key) is Some,
    ensures
        0 <= k < entries.len(),
        lookup(entries, key) == Some(entries[k].1),
    decreases entries.len(),
{
    if entries.last().0 == key {
        entries.len() - 1
    } else {
        lemma_lookup_place(entries.drop_last(), key)
    }
}

/// The value under `key`, where `j` is an object that has the key.
pub open spec fn field(j: JsonView, key: Seq<char>) -> Option<JsonView> {
    match j {
        JsonView::Object(entries) => lookup(entries, key),
        _ => None,
    }
}

/// `j` as an unsigned whole number.
pub open spec fn u64_of(j: JsonView) -> Option<u64> {
    match j {
        JsonView::Number(JsonNumber::Unsigned(n)) => Some(n),
        _ => None,
    }
}

/// `j` as a whole number of `i64`.
pub open spec fn i64_of(j: JsonView) -> Option<i64> {
    match j {
        JsonView::Number(JsonNumber::Unsigned(n)) => if n <= i64::MAX {
            Some(n as i64)
        } else {
            None
        },
        JsonView::Number(JsonNumber::Signed(i)) => Some(i),
        _ => None,
    }
}

/// `j` as a text.
pub open spec fn text_of(j: JsonView) -> Option<Seq<char>> {
    match j {
        JsonView::Text(s) => Some(s),
        _ => None,
    }
}

/// The view of an optional value.
pub open spec fn view_of(r: Option<&Json>) -> Option<JsonView> {
    match r {
        Some(j) => Some(j@),
        None => None,
    }
}

/// The view of an optional text.
pub open spec fn text_view(r: Option<&str>) -> Option<Seq<char>> {
    match r {
        Some(s) => Some(s@),
        None => None,
    }
}

/// The mathematical form of a list of values.
pub open spec fn items_view(items: Seq<Json>) -> Seq<JsonView> {
    items.map_values(|j: Json| j@)
}

/// The mathematical form of a list of entries.
pub open spec fn entries_view(entries: Seq<(String, Json)>) -> Seq<(Seq<char>, JsonView)> {
    entries.map_values(|e: (String, Json)| (e.0@, e.1@))
}

/// An array shows its items, an object its entries.
pub broadcast proof fn view_shows_parts(j: &Json)
    ensures
        #![trigger j.view()]
        j matches Json::Array(items) ==> j.view() == JsonView::Array(items_view(items@)),
        j matches Json::Object(entries) ==> j.view() == JsonView::Object(entries_view(entries@)),
{
    match j {
        Json::Array(items) => {
            assert(j.view()->Array_0 =~= items_view(items@));
        },
        Json::Object(entries) => {
            assert(j.view()->Object_0 =~= entries_view(entries@));
        },
        _ => {},
    }
}

impl Json {
    /// The value under `key`, where this is an object that has the key.
    pub fn get(&self, key: &str) -> (r: Option<&Json>)
        ensures
            view_of(r) == field(self@, key@),
    {
        broadcast use view_shows_parts;

        match self {
            Json::Object(entries) => {
                let ghost all = entries_view(entries@);
                let mut i: usize = entries.len();
                assert(all.take(i as int) =~= all);
                while i > 0
                    invariant
                        i <= entries@.len(),
                        all == entries_view(entries@),
                        self@ == JsonView::Object(all),
                        lookup(all, key@) == lookup(all.take(i as int), key@),
                    decreases i,
                {
                    assert(all.take(i as int).drop_last() =~= all.take(i - 1));
                    if same(entries[i - 1].0.as_str(), key) {
                        return Some(&entries[i - 1].1);
                    }
                    i -= 1;
                }
                None
            },
            _ => None,
        }
    }

    /// The value as an unsigned whole number.
    pub fn as_u64(&self) -> (r: Option<u64>)
        ensures
            r == u64_of(self@),
    {
        match self {
            Json::Number(JsonNumber::Unsigned(n)) => Some(*n),
            _ => None,
        }
    }

    /// The value as a whole number of `i64`.
    pub fn as_i64(&self) -> (r: Option<i64>)
        ensures
            r == i64_of(self@),
    {
        match self {
            Json::Number(JsonNumber::Unsigned(n)) => if *n <= i64::MAX as u64 {
                Some(*n as i64)
            } else {
                None
            },
            Json::Number(JsonNumber::Signed(i)) => Some(*i),
            _ => None,
        }
    }

    /// The value as a number of any form.
    pub fn as_number(&self) -> (r: Option<JsonNumber>)
        ensures
            r == match self@ {
                JsonView::Number(n) => Some(n),
                _ => None,
            },
    {
        match self {
            Json::Number(n) => Some(*n),
            _ => None,
        }
    }

    /// The value as a text.
    pub fn as_text(&self) -> (r: Option<&str>)
        ensures
            text_view(r) == text_of(self@),
    {
        match self {
            Json::Text(s) => Some(s.as_str()),
            _ => None,
        }
    }

    /// The value as a truth value.
    pub fn as_bool(&self) -> (r: Option<bool>)
        ensures
            r == match self@ {
                JsonView::Bool(b) => Some(b),
                _ => None,
            },
    {
        match self {
            Json::Bool(b) => Some(*b),
            _ => None,
        }
    }

    /// The items, where this is an array.
    pub fn as_array(&self) -> (r: Option<&Vec<Json>>)
        ensures
            match r {
                Some(items) => self@ == JsonView::Array(items_view(items@)),
                None => !(self@ is Array),
            },
    {
        broadcast use view_shows_parts;

        match self {
            Json::Array(items) => Some(items),
            _ => None,
        }
    }

    /// The entries, where this is an object.
    pub fn as_entries(&self) -> (r: Option<&Vec<(String, Json)>>)
        ensures
            match r {
                Some(entries) => self@ == JsonView::Object(entries_view(entries@)),
                None => !(self@ is Object),
            },
    {
        broadcast use view_shows_parts;

        match self {
            Json::Object(entries) => Some(entries),
            _ => None,
        }
    }

    /// A text value.
    pub fn text(s: &str) -> (r: Json)
        ensures
            r@ == JsonView::Text(s@),
    {
        Json::Text(s.to_owned())
    }

    /// An unsigned whole number.
    pub fn number(n: u64) -> (r: Json)
        ensures
            r@ == JsonView::Number(JsonNumber::Unsigned(n)),
    {
        Json::Number(JsonNumber::Unsigned(n))
    }
}

/// What `serde_json` holds in a value: null, a truth value, a number, a text, a
/// list or a map.
#[verifier::external_type_specification]
#[verifier::external_body]
pub struct ExValue(Value);

/// The JSON value that a `serde_json::Value` holds.
pub uninterp spec fn held(value: Value) -> JsonView;

/// What reading a text as JSON gives: the value that it writes, or the message
/// that says why it writes none.
pub uninterp spec fn written(text: Seq<char>) -> Result<JsonView, Seq<char>>;

/// What reading bytes as JSON gives: the value that they write, or the message
/// that says why they write none.
pub uninterp spec fn written_in(bytes: Seq<u8>) -> Result<JsonView, Seq<char>>;

/// `serde_json::from_str::<Value>`: the value that the text writes or the words
/// of the error, a function of the text alone.
#[verifier::external_body]
fn value_from_text(text: &str) -> (r: Result<Value, String>)
    ensures
        match r {
            Ok(v) => written(text@) == Ok::<JsonView, Seq<char>>(held(v)),
            Err(e) => written(text@) == Err::<JsonView, Seq<char>>(e@),
        },
{
    serde_json::from_str(text).map_err(|e| e.to_string())
}

/// `serde_json::from_slice::<Value>`: the value that the bytes write or the words
/// of the error, a function of the bytes alone.
#[verifier::external_body]
fn value_from_bytes(bytes: &[u8]) -> (r: Result<Value, String>)
    ensures
        match r {
            Ok(v) => written_in(bytes@) == Ok::<JsonView, Seq<char>>(held(v)),
            Err(e) => written_in(bytes@) == Err::<JsonView, Seq<char>>(e@),
        },
{
    serde_json::from_slice(bytes).map_err(|e| e.to_string())
}

/// Hands out what a `serde_json::Value` holds, variant by variant.
#[verifier::external_body]
fn from_value(value: Value) -> (r: Json)
    ensures
        r@ == held(value),
{
    match value {
        Value::Null => Json::Null,
        Value::Bool(b) => Json::Bool(b),
        Value::Number(n) => Json::Number(match (n.as_u64(), n.as_i64()) {
            (Some(u), _) => JsonNumber::Unsigned(u),
            (_, Some(i)) => JsonNumber::Signed(i),
            _ => JsonNumber::Float(Double { bits: n.as_f64().map_or(0, |x| x.to_bits()) })
        }),
        Value::String(s) => Json::Text(s),
        Value::Array(items) => Json::Array(items.into_iter().map(from_value).collect()),
        Value::Object(o) => Json::Object(o.into_iter().map(|(k, v)| (k, from_value(v))).collect())
    }
}

/// The view of what reading JSON gave.
pub open spec fn reading_view(r: Result<Json, String>) -> Result<JsonView, Seq<char>> {
    match r {
        Ok(j) => Ok(j@),
        Err(e) => Err(e@),
    }
}

/// Reads JSON text. The error says why the text is none.
pub fn read_json(text: &str) -> (r: Result<Json, String>)
    ensures
        reading_view(r) == written(text@),
{
    match value_from_text(text) {
        Ok(v) => Ok(from_value(v)),
        Err(e) => Err(e),
    }
}

/// Reads JSON from bytes. The error says why the bytes are none.
pub fn read_json_bytes(bytes: &[u8]) -> (r: Result<Json, String>)
    ensures
        reading_view(r) == written_in(bytes@),
{
    match value_from_bytes(bytes) {
        Ok(v) => Ok(from_value(v)),
        Err(e) => Err(e),
    }
}

impl Json {
    /// A copy of the value.
    pub fn copy(&self) -> (r: Json)
        ensures
            r@ == self@,
        decreases self,
    {
        match self {
            Json::Null => Json::Null,
            Json::Bool(b) => Json::Bool(*b),
            Json::Number(n) => Json::Number(*n),
            Json::Text(s) => Json::Text(s.clone()),
            Json::Array(items) => {
                let mut out: Vec<Json> = Vec::new();
                let mut i: usize = 0;
                while i < items.len()
                    invariant
                        i <= items@.len(),
                        out@.len() == i,
                        forall|j: int| 0 <= j < i ==> (#[trigger] out@[j])@ == items@[j]@,
                        decreases_to!(self => items),
                    decreases items@.len() - i,
                {
                    out.push(items[i].copy());
                    i += 1;
                }
                let r = Json::Array(out);
                assert(r@->Array_0 =~= self@->Array_0);
                r
            },
            Json::Object(entries) => {
                let mut out: Vec<(String, Json)> = Vec::new();
                let mut i: usize = 0;
                while i < entries.len()
                    invariant
                        i <= entries@.len(),
                        out@.len() == i,
                        forall|j: int|
                            0 <= j < i ==> (#[trigger] out@[j]).0@ == entries@[j].0@
                                && out@[j].1@ == entries@[j].1@,
                        decreases_to!(self => entries),
                    decreases entries@.len() - i,
                {
                    out.push((entries[i].0.clone(), entries[i].1.copy()));
                    i += 1;
                }
                let r = Json::Object(out);
                assert(r@->Object_0 =~= self@->Object_0);
                r
            },
        }
    }
}

/// The entries of an object without any.
pub open spec fn no_fields() -> Seq<(Seq<char>, JsonView)> {
    Seq::empty()
}

/// An object under construction.
#[derive(Debug)]
pub struct ObjectBuilder {
    pub entries: Vec<(String, Json)>,
}

impl ObjectBuilder {
    /// An object without entries.
    pub fn new() -> (r: ObjectBuilder)
        ensures
            entries_view(r.entries@) == no_fields(),
    {
        let r = ObjectBuilder { entries: Vec::new() };
        assert(entries_view(r.entries@) =~= Seq::empty());
        r
    }

    /// One more entry at the end.
    pub fn with(self, key: &str, value: Json) -> (r: ObjectBuilder)
        ensures
            entries_view(r.entries@) == entries_view(self.entries@).push((key@, value@)),
    {
        let ghost before = self.entries@;
        let ghost added = value@;
        let mut entries = self.entries;
        entries.push((key.to_owned(), value));
        assert(entries_view(entries@) =~= entries_view(before).push((key@, added)));
        ObjectBuilder { entries }
    }

    /// The finished object.
    pub fn done(self) -> (r: Json)
        ensures
            r@ == JsonView::Object(entries_view(self.entries@)),
    {
        broadcast use view_shows_parts;

        Json::Object(self.entries)
    }
}

/// A list of values.
pub fn list(items: Vec<Json>) -> (r: Json)
    ensures
        r@ == JsonView::Array(items_view(items@)),
{
    broadcast use view_shows_parts;

    Json::Array(items)
}

/// A double as JSON, which knows neither infinities nor what is not a number.
pub open spec fn double_view(d: Double) -> JsonView {
    if d.finite() {
        JsonView::Number(JsonNumber::Float(d))
    } else {
        JsonView::Null
    }
}

/// A double as JSON.
pub fn double_data(d: Double) -> (r: Json)
    ensures
        r@ == double_view(d),
{
    if d.is_finite() {
        Json::Number(JsonNumber::Float(d))
    } else {
        Json::Null
    }
}

/// A number, or null where there is none.
pub open spec fn number_or_null(n: Option<u64>) -> JsonView {
    match n {
        Some(v) => JsonView::Number(JsonNumber::Unsigned(v)),
        None => JsonView::Null,
    }
}

/// A number, or null where there is none.
pub fn optional_number(n: Option<u64>) -> (r: Json)
    ensures
        r@ == number_or_null(n),
{
    match n {
        Some(v) => Json::number(v),
        None => Json::Null,
    }
}

} // verus!
