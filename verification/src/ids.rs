//! Node ids: their form in database replies, and their form as query parameters.

use crate::error::{ErrorView, MnemosError, Outcome};
use crate::json::{entries_view, field, items_view, Json, JsonNumber, JsonView};
use crate::text::{decimal, decimal_reads_back, parse_u64, show_u64, unsigned_value};
use vstd::prelude::*;

verus! {

/// The id that a JSON value writes: an unsigned number, or a text of one.
pub open spec fn id_of(j: JsonView) -> Option<u64> {
    match j {
        JsonView::Number(JsonNumber::Unsigned(n)) => Some(n),
        JsonView::Text(s) => match unsigned_value(s, u64::MAX as nat) {
            Some(n) => Some(n as u64),
            None => None,
        },
        _ => None,
    }
}

/// Coerces a JSON id (a number or a numeric text).
pub fn json_id(value: &Json) -> (r: Option<u64>)
    ensures
        r == id_of(value@),
{
    match value.as_u64() {
        Some(id) => Some(id),
        None => match value.as_text() {
            Some(text) => parse_u64(text),
            None => None,
        },
    }
}

/// The id under `key`.
pub open spec fn id_under(j: JsonView, key: Seq<char>) -> Option<u64> {
    match field(j, key) {
        Some(v) => id_of(v),
        None => None,
    }
}

/// The id under `key`.
pub fn json_id_under(value: &Json, key: &str) -> (r: Option<u64>)
    ensures
        r == id_under(value@, key@),
{
    match value.get(key) {
        Some(v) => json_id(v),
        None => None,
    }
}

/// The first of two that is there.
pub open spec fn either(a: Option<u64>, b: Option<u64>) -> Option<u64> {
    match a {
        Some(_) => a,
        None => b,
    }
}

/// The id that a row carries: `$id`, else `id`.
pub open spec fn row_id(j: JsonView) -> Option<u64> {
    either(id_under(j, "$id"@), id_under(j, "id"@))
}

/// The id that a row carries.
pub fn json_row_id(value: &Json) -> (r: Option<u64>)
    ensures
        r == row_id(value@),
{
    match json_id_under(value, "$id") {
        Some(id) => Some(id),
        None => json_id_under(value, "id"),
    }
}

/// The id that a row carries, `id` counting only where `loose`.
pub open spec fn picked_id(j: JsonView, loose: bool) -> Option<u64> {
    if loose {
        row_id(j)
    } else {
        id_under(j, "$id"@)
    }
}

fn pick_id(value: &Json, loose: bool) -> (r: Option<u64>)
    ensures
        r == picked_id(value@, loose),
{
    if loose {
        json_row_id(value)
    } else {
        json_id_under(value, "$id")
    }
}

/// The first id among the items from `i` on.
pub open spec fn id_among(items: Seq<JsonView>, i: int, loose: bool) -> Option<u64>
    decreases items.len() - i,
{
    if i < 0 || i >= items.len() {
        None
    } else {
        either(picked_id(items[i], loose), id_among(items, i + 1, loose))
    }
}

fn find_id(items: &Vec<Json>, loose: bool) -> (r: Option<u64>)
    ensures
        r == id_among(items_view(items@), 0, loose),
{
    let ghost all = items_view(items@);
    let mut i: usize = 0;
    while i < items.len()
        invariant
            i <= items@.len(),
            all == items_view(items@),
            id_among(all, 0, loose) == id_among(all, i as int, loose),
        decreases items@.len() - i,
    {
        let found = pick_id(&items[i], loose);
        if found.is_some() {
            return found;
        }
        i += 1;
    }
    None
}

/// The id that one binding of a reply carries: the row's own, or that of the
/// first of its rows that has one.
pub open spec fn binding_id(j: JsonView, loose: bool) -> Option<u64> {
    either(
        picked_id(j, loose),
        match j {
            JsonView::Array(items) => id_among(items, 0, loose),
            _ => None,
        },
    )
}

/// The first id among the bindings from `i` on.
pub open spec fn id_in_bindings(
    entries: Seq<(Seq<char>, JsonView)>,
    i: int,
    loose: bool,
) -> Option<u64>
    decreases entries.len() - i,
{
    if i < 0 || i >= entries.len() {
        None
    } else {
        either(binding_id(entries[i].1, loose), id_in_bindings(entries, i + 1, loose))
    }
}

/// The id of the node that a reply is about: the reply's own, else that of its
/// first binding that has one. Where `loose`, rows may carry it as `id`, and a
/// bare list of rows is read as well.
pub open spec fn node_id(reply: JsonView, loose: bool) -> Option<u64> {
    either(
        row_id(reply),
        match reply {
            JsonView::Object(entries) => id_in_bindings(entries, 0, loose),
            JsonView::Array(items) => if loose {
                id_among(items, 0, false)
            } else {
                None
            },
            _ => None,
        },
    )
}

fn find_node_id(reply: &Json, loose: bool) -> (r: Option<u64>)
    ensures
        r == node_id(reply@, loose),
{
    let own = json_row_id(reply);
    if own.is_some() {
        return own;
    }
    match reply.as_entries() {
        Some(entries) => {
            let ghost all = entries_view(entries@);
            let mut i: usize = 0;
            while i < entries.len()
                invariant
                    i <= entries@.len(),
                    all == entries_view(entries@),
                    reply@ == JsonView::Object(all),
                    row_id(reply@) is None,
                    id_in_bindings(all, 0, loose) == id_in_bindings(all, i as int, loose),
                decreases entries@.len() - i,
            {
                let value = &entries[i].1;
                assert(all[i as int].1 == value@);
                let found = pick_id(value, loose);
                if found.is_some() {
                    return found;
                }
                if let Some(items) = value.as_array() {
                    let found = find_id(items, loose);
                    if found.is_some() {
                        return found;
                    }
                }
                i += 1;
            }
            None
        },
        None => match reply.as_array() {
            Some(items) => if loose {
                find_id(items, false)
            } else {
                None
            },
            None => None,
        },
    }
}

/// The id of the node that a reply is about, or an error that shows the reply.
/// `shown` is the reply as text.
pub fn parse_node_id(reply: &Json, loose: bool, shown: &str) -> (r: Outcome<u64>)
    ensures
        match r {
            Ok(id) => node_id(reply@, loose) == Some(id),
            Err(e) => node_id(reply@, loose) is None && e@ == ErrorView::Storage(
                "response missing node $id: "@ + shown@,
            ),
        },
{
    match find_node_id(reply, loose) {
        Some(id) => Ok(id),
        None => Err(
            MnemosError::Storage("response missing node $id: ".to_owned().concat(shown)),
        ),
    }
}

/// The largest id that fits a query parameter.
pub const MAX_PARAM: u64 = 0x7FFF_FFFF_FFFF_FFFF;

/// A node id as the signed number that queries take.
pub fn to_i64(id: u64) -> (r: Outcome<i64>)
    ensures
        match r {
            Ok(n) => id <= MAX_PARAM && n == id,
            Err(e) => id > MAX_PARAM && e@ == ErrorView::Internal(
                "node id overflow: "@ + decimal(id as nat),
            ),
        },
{
    if id <= MAX_PARAM {
        Ok(id as i64)
    } else {
        Err(
            MnemosError::Internal(
                "node id overflow: ".to_owned().concat(show_u64(id).as_str()),
            ),
        )
    }
}

/// A node id as the signed number that queries take; the error is one of
/// storage.
pub fn node_param(id: u64) -> (r: Outcome<i64>)
    ensures
        match r {
            Ok(n) => id <= MAX_PARAM && n == id,
            Err(e) => id > MAX_PARAM && e@ == ErrorView::Storage(
                "node id out of range: "@ + decimal(id as nat),
            ),
        },
{
    if id <= MAX_PARAM {
        Ok(id as i64)
    } else {
        Err(
            MnemosError::Storage(
                "node id out of range: ".to_owned().concat(show_u64(id).as_str()),
            ),
        )
    }
}

/// A node id as the signed number that queries take, held at the largest one.
pub open spec fn saturated_value(id: u64) -> i64 {
    if id <= MAX_PARAM {
        id as i64
    } else {
        i64::MAX
    }
}

/// A node id as the signed number that queries take, held at the largest one.
pub fn saturated_param(id: u64) -> (r: i64)
    ensures
        r == saturated_value(id),
{
    if id <= MAX_PARAM {
        id as i64
    } else {
        i64::MAX
    }
}

/// The rows under `key`: the items of a list, a single object as one row, and
/// nothing otherwise.
pub open spec fn rows_under(reply: JsonView, key: Seq<char>) -> Seq<JsonView> {
    match field(reply, key) {
        Some(JsonView::Array(items)) => items,
        Some(JsonView::Object(entries)) => seq![JsonView::Object(entries)],
        _ => Seq::empty(),
    }
}

/// The rows under `key`, in order.
pub fn response_rows(reply: &Json, key: &str) -> (r: Vec<Json>)
    ensures
        items_view(r@) == rows_under(reply@, key@),
{
    let mut out: Vec<Json> = Vec::new();
    match reply.get(key) {
        Some(value) => {
            match value.as_array() {
                Some(items) => {
                    let mut i: usize = 0;
                    while i < items.len()
                        invariant
                            i <= items@.len(),
                            out@.len() == i,
                            forall|j: int| 0 <= j < i ==> (#[trigger] out@[j])@ == items@[j]@,
                        decreases items@.len() - i,
                    {
                        out.push(items[i].copy());
                        i += 1;
                    }
                    assert(items_view(out@) =~= items_view(items@));
                },
                None => {
                    if value.as_entries().is_some() {
                        out.push(value.copy());
                        assert(items_view(out@) =~= seq![value@]);
                    } else {
                        assert(items_view(out@) =~= Seq::empty());
                    }
                },
            }
        },
        None => {
            assert(items_view(out@) =~= Seq::empty());
        },
    }
    out
}

/// How many rows stand under `key`.
pub fn response_count(reply: &Json, key: &str) -> (r: u64)
    ensures
        r == rows_under(reply@, key@).len(),
{
    match reply.get(key) {
        Some(value) => match value.as_array() {
            Some(items) => items.len() as u64,
            None => if value.as_entries().is_some() {
                1
            } else {
                0
            },
        },
        None => 0,
    }
}

/// A number and its digits are the same id, and no other kind of value is one.
pub proof fn digits_are_the_same_id(n: u64, b: bool, items: Seq<JsonView>)
    ensures
        id_of(JsonView::Number(JsonNumber::Unsigned(n))) == Some(n),
        id_of(JsonView::Text(decimal(n as nat))) == Some(n),
        id_of(JsonView::Null) is None,
        id_of(JsonView::Bool(b)) is None,
        id_of(JsonView::Array(items)) is None,
{
    decimal_reads_back(n as nat, u64::MAX as nat);
}

/// A row goes by its `$id`, and by its `id` only where `$id` names none.
pub proof fn rows_go_by_their_node_id(row: JsonView)
    ensures
        field(row, "$id"@) matches Some(v) && id_of(v) is Some ==> row_id(row) == id_of(
            field(row, "$id"@)->0,
        ),
        (field(row, "$id"@) matches Some(v) ==> id_of(v) is None) ==> row_id(row) == match field(
            row,
            "id"@,
        ) {
            Some(v) => id_of(v),
            None => None,
        },
{
}

proof fn lemma_first_among(items: Seq<JsonView>, from: int, k: int, loose: bool)
    requires
        0 <= from <= k < items.len(),
        forall|i: int| from <= i < k ==> picked_id(#[trigger] items[i], loose) is None,
        picked_id(items[k], loose) is Some,
    ensures
        id_among(items, from, loose) == picked_id(items[k], loose),
    decreases k - from,
{
    if from < k {
        lemma_first_among(items, from + 1, k, loose);
    }
}

proof fn lemma_none_among(items: Seq<JsonView>, from: int, loose: bool)
    requires
        0 <= from <= items.len(),
        forall|i: int| from <= i < items.len() ==> picked_id(#[trigger] items[i], loose) is None,
    ensures
        id_among(items, from, loose) is None,
    decreases items.len() - from,
{
    if from < items.len() {
        lemma_none_among(items, from + 1, loose);
    }
}

proof fn lemma_first_binding(
    entries: Seq<(Seq<char>, JsonView)>,
    from: int,
    k: int,
    loose: bool,
)
    requires
        0 <= from <= k < entries.len(),
        forall|i: int|
            from <= i < k ==> binding_id((#[trigger] entries[i]).1, loose) is None,
        binding_id(entries[k].1, loose) is Some,
    ensures
        id_in_bindings(entries, from, loose) == binding_id(entries[k].1, loose),
    decreases k - from,
{
    if from < k {
        lemma_first_binding(entries, from + 1, k, loose);
    }
}

/// A reply that carries an id itself is about that node, whatever its bindings
/// say.
pub proof fn replies_go_by_their_own_id(reply: JsonView, loose: bool)
    requires
        row_id(reply) is Some,
    ensures
        node_id(reply, loose) == row_id(reply),
{
}

/// Of several bindings the first with a `$id` names the node, where nothing before
/// it holds an id.
pub proof fn the_first_binding_names_the_node(
    entries: Seq<(Seq<char>, JsonView)>,
    k: int,
    id: u64,
    loose: bool,
)
    requires
        row_id(JsonView::Object(entries)) is None,
        0 <= k < entries.len(),
        forall|i: int|
            0 <= i < k ==> (#[trigger] entries[i]).1 is Null,
        id_under(entries[k].1, "$id"@) == Some(id),
    ensures
        node_id(JsonView::Object(entries), loose) == Some(id),
{
    lemma_first_binding(entries, 0, k, loose);
}

/// A binding that is a list names the node by its first row with a `$id`.
pub proof fn the_first_row_names_the_node(
    key: Seq<char>,
    rows: Seq<JsonView>,
    k: int,
    id: u64,
    loose: bool,
)
    requires
        row_id(JsonView::Object(seq![(key, JsonView::Array(rows))])) is None,
        0 <= k < rows.len(),
        forall|i: int| 0 <= i < k ==> row_id(#[trigger] rows[i]) is None,
        id_under(rows[k], "$id"@) == Some(id),
    ensures
        node_id(JsonView::Object(seq![(key, JsonView::Array(rows))]), loose) == Some(id),
{
    let entries = seq![(key, JsonView::Array(rows))];
    lemma_first_among(rows, 0, k, loose);
    assert(entries[0] == (key, JsonView::Array(rows)));
    lemma_first_binding(entries, 0, 0, loose);
}

/// Without `loose` a row that carries its id as `id` alone names no node; with it
/// the first such row does.
pub proof fn loose_rows_may_carry_a_plain_id(key: Seq<char>, rows: Seq<JsonView>)
    requires
        row_id(JsonView::Object(seq![(key, JsonView::Array(rows))])) is None,
        rows.len() > 0,
        forall|i: int|
            0 <= i < rows.len() ==> id_under(#[trigger] rows[i], "$id"@) is None,
    ensures
        node_id(JsonView::Object(seq![(key, JsonView::Array(rows))]), false) is None,
        id_under(rows[0], "id"@) is Some ==> node_id(
            JsonView::Object(seq![(key, JsonView::Array(rows))]),
            true,
        ) == id_under(rows[0], "id"@),
{
    let entries = seq![(key, JsonView::Array(rows))];
    assert(entries[0] == (key, JsonView::Array(rows)));
    lemma_none_among(rows, 0, false);
    reveal_with_fuel(id_in_bindings, 2);
    if id_under(rows[0], "id"@) is Some {
        lemma_first_among(rows, 0, 0, true);
        lemma_first_binding(entries, 0, 0, true);
    }
}

/// A held parameter is the id itself up to the largest one, and never above it.
pub proof fn held_ids_stay_in_range(id: u64)
    ensures
        id <= i64::MAX ==> saturated_value(id) == id,
        id > i64::MAX ==> saturated_value(id) == i64::MAX,
{
}

/// The rows under a key are the items of a list, a single object is one row, and
/// anything else is none.
pub proof fn rows_are_the_items(reply: JsonView, key: Seq<char>)
    ensures
        field(reply, key) is None ==> rows_under(reply, key).len() == 0,
        field(reply, key) matches Some(JsonView::Array(items)) ==> rows_under(reply, key) == items,
        field(reply, key) matches Some(JsonView::Object(entries)) ==> rows_under(reply, key)
            == seq![JsonView::Object(entries)],
        field(reply, key) matches Some(JsonView::Text(_)) ==> rows_under(reply, key).len() == 0,
        field(reply, key) matches Some(JsonView::Null) ==> rows_under(reply, key).len() == 0,
{
}

} // verus!
