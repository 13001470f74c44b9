//! The face of the memory: aggregate counts, formatted recalls and the switches
//! of the recall path.

use crate::env::Env;
use crate::error::{ErrorView, MnemosError, Outcome};
use crate::ids::MAX_PARAM;
use crate::json::{
    field, items_view, lemma_entry_is_smaller, lookup, Json, JsonNumber, JsonView,
};
use crate::text::{decimal, lowered, same, show_u64, to_lower, trim, trimmed};
use crate::types::MemoryStats;
use vstd::prelude::*;

verus! {

/// The count that a value writes: a whole number, one wrapped in a list or under
/// `count`, or the length of a longer list.
pub open spec fn counted_value(j: JsonView) -> u64
    decreases j,
    via counted_value_shrinks
{
    match j {
        JsonView::Number(JsonNumber::Unsigned(n)) => n,
        JsonView::Number(JsonNumber::Signed(i)) => if i >= 0 {
            i as u64
        } else {
            0
        },
        JsonView::Array(items) => if items.len() == 0 {
            0
        } else if items.len() == 1 {
            counted_value(items[0])
        } else {
            items.len() as u64
        },
        JsonView::Object(entries) => match lookup(entries, "count"@) {
            Some(v) => counted_value(v),
            None => 0,
        },
        _ => 0,
    }
}

#[via_fn]
proof fn counted_value_shrinks(j: JsonView) {
    match j {
        JsonView::Object(entries) => {
            lemma_entry_is_smaller(entries, "count"@);
        },
        JsonView::Array(items) => {
            if items.len() == 1 {
                assert(decreases_to!(j => j->Array_0));
                assert(decreases_to!(items => items[0]));
            }
        },
        _ => {},
    }
}

/// The count that a value writes.
pub fn count_value(value: &Json) -> (r: u64)
    ensures
        r == counted_value(value@),
    decreases value@,
{
    if let Some(n) = value.as_number() {
        return match n {
            JsonNumber::Unsigned(n) => n,
            JsonNumber::Signed(i) => if i >= 0 {
                i as u64
            } else {
                0
            },
            JsonNumber::Float(_) => 0,
        };
    }
    if let Some(items) = value.as_array() {
        if items.len() == 0 {
            return 0;
        }
        if items.len() == 1 {
            proof {
                let all = items_view(items@);
                let j = value@;
                assert(decreases_to!(j => j->Array_0));
                assert(decreases_to!(all => all[0]));
            }
            return count_value(&items[0]);
        }
        return items.len() as u64;
    }
    proof {
        if let JsonView::Object(entries) = value@ {
            lemma_entry_is_smaller(entries, "count"@);
        }
    }
    match value.get("count") {
        Some(inner) => count_value(inner),
        None => 0,
    }
}

/// The count under `key`; 0 where there is none.
pub open spec fn count_under(reply: JsonView, key: Seq<char>) -> u64 {
    match field(reply, key) {
        Some(v) => counted_value(v),
        None => 0,
    }
}

/// The count under `key`; 0 where there is none.
pub fn count_binding(reply: &Json, key: &str) -> (r: u64)
    ensures
        r == count_under(reply@, key@),
{
    match reply.get(key) {
        Some(v) => count_value(v),
        None => 0,
    }
}

/// The aggregate counts of a reply.
pub fn stats_of(reply: &Json) -> (r: MemoryStats)
    ensures
        r.total_engrams == count_under(reply@, "engrams"@),
        r.contradictions == count_under(reply@, "contradicted"@),
        r.concepts == count_under(reply@, "concepts"@),
        r.identities == count_under(reply@, "identities"@),
{
    MemoryStats {
        total_engrams: count_binding(reply, "engrams"),
        contradictions: count_binding(reply, "contradicted"),
        concepts: count_binding(reply, "concepts"),
        identities: count_binding(reply, "identities"),
    }
}

/// How many memories a formatted recall asks for: twice as many as it shows.
pub fn oversampled(limit: usize) -> (r: usize)
    ensures
        r == if 2 * limit <= usize::MAX {
            2 * limit
        } else {
            usize::MAX as int
        },
{
    if limit <= usize::MAX / 2 {
        2 * limit
    } else {
        usize::MAX
    }
}

/// The first sixty characters of a text.
pub open spec fn head_of(episode: Seq<char>) -> Seq<char> {
    if episode.len() <= 60 {
        episode
    } else {
        episode.take(60)
    }
}

/// One memory of a formatted recall. The numbers come as text.
pub fn memory_snippet(episode: &str, relevance: &str, importance: &str) -> (r: String)
    ensures
        r@ == "[Memory: "@ + head_of(episode@) + " (relevance: "@ + relevance@ + ")]\n"@ + episode@
            + " [importance: "@ + importance@ + "]\n"@,
{
    let n: usize = episode.unicode_len();
    let head = if n <= 60 {
        episode
    } else {
        episode.substring_char(0, 60)
    };
    assert(head@ =~= head_of(episode@));
    "[Memory: ".to_owned().concat(head).concat(" (relevance: ").concat(relevance).concat(
        ")]\n",
    ).concat(episode).concat(" [importance: ").concat(importance).concat("]\n")
}

/// The note that every formatted recall ends with.
pub fn reward_note(recall_id: Option<u64>) -> (r: String)
    ensures
        r@ == match recall_id {
            Some(id) => "\n[Note: consider rewarding this recall via recall_id="@ + decimal(
                id as nat,
            ) + " with the reward tool]\n"@,
            None => "\n[Note: consider rewarding this recall with the reward tool]\n"@,
        },
{
    match recall_id {
        Some(id) => {
            let digits = show_u64(id);
            "\n[Note: consider rewarding this recall via recall_id=".to_owned().concat(
                digits.as_str(),
            ).concat(" with the reward tool]\n")
        },
        None => "\n[Note: consider rewarding this recall with the reward tool]\n".to_owned(),
    }
}

/// One of the words for no: `0`, `false`, `no`, `off`, in any case.
pub open spec fn says_no(s: Seq<char>) -> bool {
    let n = lowered(s);
    n == "0"@ || n == "false"@ || n == "no"@ || n == "off"@
}

/// Whether a recall spreads a wave: always, unless `MNEMOS_RECALL_WAVE` says no.
pub fn wave_enabled(env: &Env) -> (r: bool)
    ensures
        r == match env.value("MNEMOS_RECALL_WAVE"@) {
            Some(v) => !says_no(trimmed(v)),
            None => true,
        },
{
    match env.get("MNEMOS_RECALL_WAVE") {
        Some(v) => {
            let n = to_lower(trim(v));
            let n = n.as_str();
            !(same(n, "0") || same(n, "false") || same(n, "no") || same(n, "off"))
        },
        None => true,
    }
}

/// The dimension of a vector index; it must not be zero.
pub fn index_dimension(dimension: usize) -> (r: Outcome<usize>)
    ensures
        match r {
            Ok(d) => d == dimension && dimension > 0,
            Err(e) => dimension == 0 && e@ == ErrorView::Storage("dimension must be > 0: 0"@),
        },
{
    if dimension > 0 {
        Ok(dimension)
    } else {
        Err(MnemosError::Storage("dimension must be > 0: 0".to_owned()))
    }
}

/// What a finished index setup says. `shown` is the database's reply as text.
pub fn index_message(dimension: usize, shown: &str) -> (r: String)
    ensures
        r@ == "vector index on Engram.embedding (dim "@ + decimal(dimension as nat) + "): "@
            + shown@,
{
    let digits = show_u64(dimension as u64);
    "vector index on Engram.embedding (dim ".to_owned().concat(digits.as_str()).concat("): ").concat(
        shown,
    )
}

/// The ids of an edge from a concept to an identity, as query parameters.
pub fn defines_params(concept_id: u64, identity_id: u64) -> (r: Outcome<(i64, i64)>)
    ensures
        match r {
            Ok((c, i)) => concept_id <= MAX_PARAM && identity_id <= MAX_PARAM && c == concept_id
                && i == identity_id,
            Err(e) => if concept_id > MAX_PARAM {
                e@ == ErrorView::Storage("concept id overflow: "@ + decimal(concept_id as nat))
            } else {
                identity_id > MAX_PARAM && e@ == ErrorView::Storage(
                    "identity id overflow: "@ + decimal(identity_id as nat),
                )
            },
        },
{
    if concept_id > MAX_PARAM {
        let digits = show_u64(concept_id);
        return Err(
            MnemosError::Storage("concept id overflow: ".to_owned().concat(digits.as_str())),
        );
    }
    if identity_id > MAX_PARAM {
        let digits = show_u64(identity_id);
        return Err(
            MnemosError::Storage("identity id overflow: ".to_owned().concat(digits.as_str())),
        );
    }
    Ok((concept_id as i64, identity_id as i64))
}

/// A count reads the same however the database wraps it: bare, as the only item of
/// a list, or under `count`.
pub proof fn counts_read_through_their_wrapping(n: u64, j: JsonView)
    ensures
        counted_value(JsonView::Number(JsonNumber::Unsigned(n))) == n,
        counted_value(JsonView::Array(seq![j])) == counted_value(j),
        counted_value(JsonView::Object(seq![("count"@, j)])) == counted_value(j),
{
    let entries = seq![("count"@, j)];
    assert(entries.last() == ("count"@, j));
    reveal_with_fuel(lookup, 2);
    assert(lookup(entries, "count"@) == Some(j));
}

/// A list of several rows counts its rows, and what holds no number counts as
/// none.
pub proof fn rows_are_counted(items: Seq<JsonView>, i: i64)
    requires
        items.len() <= u64::MAX,
    ensures
        items.len() >= 2 ==> counted_value(JsonView::Array(items)) == items.len(),
        counted_value(JsonView::Array(Seq::empty())) == 0,
        counted_value(JsonView::Null) == 0,
        counted_value(JsonView::Number(JsonNumber::Signed(i))) == if i >= 0 {
            i as int
        } else {
            0
        },
{
}

/// The head of a text is its first sixty characters, or all of a shorter one.
pub proof fn heads_are_the_first_sixty(episode: Seq<char>)
    ensures
        head_of(episode).len() <= 60,
        head_of(episode).len() < 60 ==> head_of(episode) == episode,
        head_of(episode).is_prefix_of(episode),
        episode.len() >= 60 ==> head_of(episode).len() == 60,
{
    assert(head_of(episode).is_prefix_of(episode));
}

/// The words for no are these four and no others, whatever their case.
pub proof fn four_words_say_no(s: Seq<char>)
    ensures
        says_no(s) <==> seq!["0"@, "false"@, "no"@, "off"@].contains(lowered(s)),
{
    let words = seq!["0"@, "false"@, "no"@, "off"@];
    assert(words[0] == "0"@ && words[1] == "false"@ && words[2] == "no"@ && words[3] == "off"@);
}

} // verus!
