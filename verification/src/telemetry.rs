//! Failure tracking: a bounded ring of outcomes, counters for each operation, and
//! the diagnosis drawn from them.

use crate::clock::now_rfc3339;
use crate::env::{truthy, Env};
use crate::json::Json;
use crate::ranking::{is_ranked, is_ranking, is_reordered, rank_by};
use crate::retrieval::at_most;
use crate::text::{
    blank, byte_len, decimal, digit, digits_value, is_blank, len_in_bytes, same, show_u64, to_chars,
};
use std::collections::VecDeque;
use vstd::prelude::*;

verus! {

/// How many events are kept in memory.
pub const MAX_EVENTS: usize = 1024;

/// How many snapshots of weights and of counts are kept.
pub const MAX_SNAPSHOTS: usize = 256;

/// How many bytes of a detail are kept.
pub const MAX_DETAIL: usize = 500;

/// One recorded outcome.
#[derive(Debug)]
pub struct Event {
    /// RFC 3339.
    pub ts: String,
    /// Where the operation ran.
    pub crate_name: String,
    pub op: String,
    pub ok: bool,
    /// Why it failed, or what is notable.
    pub detail: String,
    pub latency_ms: u64,
    /// Links the events of one session.
    pub trace_id: String,
    /// Fields to filter by.
    pub meta: Vec<(String, String)>,
}

/// An outcome by value.
pub struct EventView {
    pub ts: Seq<char>,
    pub crate_name: Seq<char>,
    pub op: Seq<char>,
    pub ok: bool,
    pub detail: Seq<char>,
    pub latency_ms: u64,
    pub trace_id: Seq<char>,
    pub meta: Seq<(Seq<char>, Seq<char>)>,
}

/// Fields by value.
pub open spec fn meta_view(meta: Seq<(String, String)>) -> Seq<(Seq<char>, Seq<char>)> {
    meta.map_values(|p: (String, String)| (p.0@, p.1@))
}

impl Event {
    pub open spec fn view(&self) -> EventView {
        EventView {
            ts: self.ts@,
            crate_name: self.crate_name@,
            op: self.op@,
            ok: self.ok,
            detail: self.detail@,
            latency_ms: self.latency_ms,
            trace_id: self.trace_id@,
            meta: meta_view(self.meta@),
        }
    }

    /// A copy of the event.
    pub fn copy(&self) -> (r: Event)
        ensures
            r@ == self@,
    {
        let mut meta: Vec<(String, String)> = Vec::new();
        let mut i: usize = 0;
        while i < self.meta.len()
            invariant
                i <= self.meta@.len(),
                meta@.len() == i,
                forall|j: int|
                    0 <= j < i ==> (#[trigger] meta@[j]).0@ == self.meta@[j].0@ && meta@[j].1@
                        == self.meta@[j].1@,
            decreases self.meta@.len() - i,
        {
            meta.push((self.meta[i].0.clone(), self.meta[i].1.clone()));
            i += 1;
        }
        assert(meta_view(meta@) =~= meta_view(self.meta@));
        Event {
            ts: self.ts.clone(),
            crate_name: self.crate_name.clone(),
            op: self.op.clone(),
            ok: self.ok,
            detail: self.detail.clone(),
            latency_ms: self.latency_ms,
            trace_id: self.trace_id.clone(),
            meta,
        }
    }

    /// The key under which the event is counted.
    pub fn key(&self) -> (r: String)
        ensures
            r@ == event_key(self@),
    {
        self.crate_name.clone().concat("::").concat(self.op.as_str())
    }
}

/// The key under which an event is counted.
pub open spec fn event_key(e: EventView) -> Seq<char> {
    e.crate_name + "::"@ + e.op
}

/// Events by value.
pub open spec fn event_views(events: Seq<Event>) -> Seq<EventView> {
    events.map_values(|e: Event| e@)
}

/// Counts of one operation.
#[derive(Clone, Copy, Debug, PartialEq, Eq, Structural)]
pub struct Counter {
    pub total: u64,
    pub ok: u64,
    pub err: u64,
    pub latency_sum_ms: u64,
    pub latency_min_ms: u64,
    pub latency_max_ms: u64,
}

impl Default for Counter {
    fn default() -> (r: Counter)
        ensures
            r == no_counts(),
    {
        Counter {
            total: 0,
            ok: 0,
            err: 0,
            latency_sum_ms: 0,
            latency_min_ms: 0,
            latency_max_ms: 0,
        }
    }
}

/// A counter that counted nothing.
pub open spec fn no_counts() -> Counter {
    Counter { total: 0, ok: 0, err: 0, latency_sum_ms: 0, latency_min_ms: 0, latency_max_ms: 0 }
}

/// `a + b`, held at the largest number.
pub open spec fn sum_held(a: u64, b: u64) -> u64 {
    if a + b <= u64::MAX {
        (a + b) as u64
    } else {
        u64::MAX
    }
}

impl Counter {
    /// The counter after one more outcome.
    pub open spec fn counted(self, ok: bool, latency_ms: u64) -> Counter {
        Counter {
            total: sum_held(self.total, 1),
            ok: if ok {
                sum_held(self.ok, 1)
            } else {
                self.ok
            },
            err: if ok {
                self.err
            } else {
                sum_held(self.err, 1)
            },
            latency_sum_ms: sum_held(self.latency_sum_ms, latency_ms),
            latency_min_ms: if self.total == 0 || latency_ms < self.latency_min_ms {
                latency_ms
            } else {
                self.latency_min_ms
            },
            latency_max_ms: if self.total == 0 || latency_ms > self.latency_max_ms {
                latency_ms
            } else {
                self.latency_max_ms
            },
        }
    }

    /// The counter after one more outcome.
    pub fn count(self, ok: bool, latency_ms: u64) -> (r: Counter)
        ensures
            r == self.counted(ok, latency_ms),
    {
        Counter {
            total: self.total.saturating_add(1),
            ok: if ok {
                self.ok.saturating_add(1)
            } else {
                self.ok
            },
            err: if ok {
                self.err
            } else {
                self.err.saturating_add(1)
            },
            latency_sum_ms: self.latency_sum_ms.saturating_add(latency_ms),
            latency_min_ms: if self.total == 0 || latency_ms < self.latency_min_ms {
                latency_ms
            } else {
                self.latency_min_ms
            },
            latency_max_ms: if self.total == 0 || latency_ms > self.latency_max_ms {
                latency_ms
            } else {
                self.latency_max_ms
            },
        }
    }
}

/// Counting keeps the parts in step with the whole while none is at its limit.
pub proof fn counts_add_up(c: Counter, ok: bool, latency_ms: u64)
    requires
        c.ok + c.err == c.total,
        c.total < u64::MAX,
    ensures
        c.counted(ok, latency_ms).ok + c.counted(ok, latency_ms).err == c.counted(
            ok,
            latency_ms,
        ).total,
{
}

/// The counter of each key.
pub open spec fn counts(counters: Seq<(String, Counter)>) -> Map<Seq<char>, Counter>
    decreases counters.len(),
{
    if counters.len() == 0 {
        Map::empty()
    } else {
        counts(counters.drop_last()).insert(counters.last().0@, counters.last().1)
    }
}

/// No key stands twice.
pub open spec fn keys_differ(counters: Seq<(String, Counter)>) -> bool {
    forall|a: int, b: int|
        0 <= a < b < counters.len() ==> (#[trigger] counters[a]).0@ != (#[trigger] counters[b]).0@
}

proof fn lemma_counts(counters: Seq<(String, Counter)>, k: int)
    requires
        keys_differ(counters),
        0 <= k < counters.len(),
    ensures
        counts(counters).dom().contains(counters[k].0@),
        counts(counters)[counters[k].0@] == counters[k].1,
    decreases counters.len(),
{
    if k < counters.len() - 1 {
        assert(counters[k].0@ != counters[counters.len() - 1].0@);
        lemma_counts(counters.drop_last(), k);
    }
}

proof fn lemma_no_count(counters: Seq<(String, Counter)>, key: Seq<char>)
    requires
        forall|k: int| 0 <= k < counters.len() ==> (#[trigger] counters[k]).0@ != key,
    ensures
        !counts(counters).dom().contains(key),
    decreases counters.len(),
{
    if counters.len() > 0 {
        assert(counters[counters.len() - 1].0@ != key);
        lemma_no_count(counters.drop_last(), key);
    }
}

proof fn lemma_count_replaced(
    before: Seq<(String, Counter)>,
    after: Seq<(String, Counter)>,
    k: int,
)
    requires
        keys_differ(before),
        before.len() == after.len(),
        0 <= k < before.len(),
        after[k].0@ == before[k].0@,
        forall|j: int| 0 <= j < before.len() && j != k ==> #[trigger] after[j] == before[j],
    ensures
        keys_differ(after),
        counts(after) == counts(before).insert(before[k].0@, after[k].1),
    decreases before.len(),
{
    assert forall|a: int, b: int| 0 <= a < b < after.len() implies (#[trigger] after[a]).0@ != (
    #[trigger] after[b]).0@ by {
        assert(before[a].0@ != before[b].0@);
        assert(after[a].0@ == before[a].0@ && after[b].0@ == before[b].0@);
    }
    let last = before.len() - 1;
    if k == last {
        assert(after.drop_last() =~= before.drop_last());
        assert(counts(after) =~= counts(before).insert(before[k].0@, after[k].1));
    } else {
        assert(before[k].0@ != before[last].0@);
        assert(after[last] == before[last]);
        lemma_count_replaced(before.drop_last(), after.drop_last(), k);
        assert(counts(after) =~= counts(before).insert(before[k].0@, after[k].1));
    }
}

/// How many outcomes the counters count together.
pub open spec fn counted_in_all(counters: Seq<(String, Counter)>) -> nat
    decreases counters.len(),
{
    if counters.len() == 0 {
        0
    } else {
        counted_in_all(counters.drop_last()) + counters.last().1.total as nat
    }
}

proof fn lemma_total_replaced(
    before: Seq<(String, Counter)>,
    after: Seq<(String, Counter)>,
    k: int,
)
    requires
        before.len() == after.len(),
        0 <= k < before.len(),
        forall|j: int| 0 <= j < before.len() && j != k ==> #[trigger] after[j] == before[j],
    ensures
        before[k].1.total <= counted_in_all(before),
        counted_in_all(after) == counted_in_all(before) - before[k].1.total + after[k].1.total,
    decreases before.len(),
{
    let last = before.len() - 1;
    if k == last {
        assert(after.drop_last() =~= before.drop_last());
    } else {
        assert(after[last] == before[last]);
        lemma_total_replaced(before.drop_last(), after.drop_last(), k);
    }
}

/// One failing operation.
#[derive(Debug)]
pub struct FailurePair {
    pub key: String,
    /// How often it failed.
    pub count: u64,
    /// Why it failed last.
    pub latest: String,
}

/// One failing operation by value.
pub struct PairView {
    pub key: Seq<char>,
    pub count: u64,
    pub latest: Seq<char>,
}

impl FailurePair {
    pub open spec fn view(&self) -> PairView {
        PairView { key: self.key@, count: self.count, latest: self.latest@ }
    }
}

/// Failing operations by value.
pub open spec fn pair_views(pairs: Seq<FailurePair>) -> Seq<PairView> {
    pairs.map_values(|p: FailurePair| p@)
}

/// The place of `key` among the pairs.
pub open spec fn pair_place(pairs: Seq<PairView>, key: Seq<char>) -> Option<int>
    decreases pairs.len(),
{
    if pairs.len() == 0 {
        None
    } else if pairs.last().key == key {
        Some(pairs.len() - 1)
    } else {
        pair_place(pairs.drop_last(), key)
    }
}

/// The failing operations, in the order of their first failure.
pub open spec fn failure_pairs(events: Seq<EventView>) -> Seq<PairView>
    decreases events.len(),
{
    if events.len() == 0 {
        Seq::empty()
    } else {
        let before = failure_pairs(events.drop_last());
        let e = events.last();
        if e.ok {
            before
        } else {
            match pair_place(before, event_key(e)) {
                Some(k) => before.update(
                    k,
                    PairView {
                        key: before[k].key,
                        count: sum_held(before[k].count, 1),
                        latest: e.detail,
                    },
                ),
                None => before.push(
                    PairView { key: event_key(e), count: 1, latest: e.detail },
                ),
            }
        }
    }
}

/// How many events failed.
pub open spec fn failures(events: Seq<EventView>) -> nat
    decreases events.len(),
{
    if events.len() == 0 {
        0
    } else {
        failures(events.drop_last()) + if events.last().ok {
            0nat
        } else {
            1nat
        }
    }
}

/// How many events under `key` failed.
pub open spec fn failures_under(events: Seq<EventView>, key: Seq<char>) -> nat
    decreases events.len(),
{
    if events.len() == 0 {
        0
    } else {
        failures_under(events.drop_last(), key) + if !events.last().ok && event_key(events.last())
            == key {
            1nat
        } else {
            0nat
        }
    }
}

/// The events that failed, newest first.
pub open spec fn failed_latest_first(events: Seq<EventView>) -> Seq<EventView>
    decreases events.len(),
{
    if events.len() == 0 {
        Seq::empty()
    } else if events.last().ok {
        failed_latest_first(events.drop_last())
    } else {
        seq![events.last()] + failed_latest_first(events.drop_last())
    }
}

pub(crate) proof fn lemma_pair_place(pairs: Seq<PairView>, key: Seq<char>)
    ensures
        match pair_place(pairs, key) {
            Some(k) => 0 <= k < pairs.len() && pairs[k].key == key,
            None => forall|k: int| 0 <= k < pairs.len() ==> (#[trigger] pairs[k]).key != key,
        },
    decreases pairs.len(),
{
    if pairs.len() > 0 && pairs.last().key != key {
        lemma_pair_place(pairs.drop_last(), key);
        if pair_place(pairs, key) is None {
            assert forall|k: int| 0 <= k < pairs.len() implies (#[trigger] pairs[k]).key != key by {
                if k < pairs.len() - 1 {
                    assert(pairs.drop_last()[k] == pairs[k]);
                }
            }
        }
    }
}

/// Each failing operation is listed once, with the number of its failures, and
/// every failure is listed.
pub proof fn diagnosis_counts_failures(events: Seq<EventView>)
    requires
        events.len() <= u64::MAX,
    ensures
        forall|k: int|
            0 <= k < failure_pairs(events).len() ==> (#[trigger] failure_pairs(events)[k]).count
                == failures_under(events, failure_pairs(events)[k].key),
        forall|a: int, b: int|
            0 <= a < b < failure_pairs(events).len() ==> (#[trigger] failure_pairs(events)[a]).key
                != (#[trigger] failure_pairs(events)[b]).key,
        forall|key: Seq<char>|
            pair_place(failure_pairs(events), key) is None ==> #[trigger] failures_under(
                events,
                key,
            ) == 0,
    decreases events.len(),
{
    if events.len() > 0 {
        let fewer = events.drop_last();
        diagnosis_counts_failures(fewer);
        let before = failure_pairs(fewer);
        let after = failure_pairs(events);
        let e = events.last();
        let key = event_key(e);
        lemma_pair_place(before, key);
        lemma_failures_bound(fewer, key);
        if !e.ok {
            assert forall|k: int| 0 <= k < after.len() implies (#[trigger] after[k]).count
                == failures_under(events, after[k].key) by {
                if k < before.len() {
                    assert(after[k].key == before[k].key);
                    assert(before[k].count == failures_under(fewer, before[k].key));
                    if before[k].key == key {
                        match pair_place(before, key) {
                            Some(p) => {
                                if p < k {
                                    assert(before[p].key != before[k].key);
                                } else if k < p {
                                    assert(before[k].key != before[p].key);
                                }
                            },
                            None => {},
                        }
                    }
                }
            }
            assert forall|a: int, b: int| 0 <= a < b < after.len() implies (#[trigger] after[a]).key
                != (#[trigger] after[b]).key by {
                assert(after[a].key == before[a].key);
                if b < before.len() {
                    assert(after[b].key == before[b].key);
                    assert(before[a].key != before[b].key);
                }
            }
            assert forall|other: Seq<char>|
                pair_place(after, other) is None implies #[trigger] failures_under(events, other)
                == 0 by {
                lemma_pair_place(after, other);
                lemma_pair_place(before, other);
                if let Some(p) = pair_place(before, other) {
                    assert(after[p].key == before[p].key);
                }
                if other == key {
                    match pair_place(before, key) {
                        Some(p) => {
                            assert(after[p].key == key);
                        },
                        None => {
                            assert(after[before.len() as int].key == key);
                        },
                    }
                }
                assert(failures_under(fewer, other) == 0);
            }
        } else {
            assert forall|k: int| 0 <= k < after.len() implies (#[trigger] after[k]).count
                == failures_under(events, after[k].key) by {
                assert(before[k].count == failures_under(fewer, before[k].key));
            }
            assert forall|other: Seq<char>|
                pair_place(after, other) is None implies #[trigger] failures_under(events, other)
                == 0 by {
                assert(failures_under(fewer, other) == 0);
            }
        }
    }
}

pub(crate) proof fn lemma_failures_bound(events: Seq<EventView>, key: Seq<char>)
    ensures
        failures_under(events, key) <= failures(events) <= events.len(),
    decreases events.len(),
{
    if events.len() > 0 {
        lemma_failures_bound(events.drop_last(), key);
    }
}

/// A snapshot of the edge weights.
#[derive(Debug)]
pub struct WeightSnapshot {
    pub ts: String,
    pub weights: Json,
}

/// A snapshot of the aggregate counts.
#[derive(Debug)]
pub struct SystemStatsSnapshot {
    pub ts: String,
    pub stats: Json,
}

/// Failures by operation.
#[derive(Debug)]
pub struct FailureSummary {
    /// How many events were recorded in all.
    pub total: u64,
    /// How often each operation failed.
    pub failures: Vec<(String, u64)>,
    /// Why each operation failed last.
    pub latest_detail: Vec<(String, String)>,
}

/// What failed and why.
#[derive(Debug)]
pub struct Diagnosis {
    /// How many events were recorded in all.
    pub total_events: u64,
    /// How many of the events in memory failed.
    pub total_failures: u64,
    /// The failing operations, most failures first.
    pub top_failures: Vec<FailurePair>,
    /// The latest failures, newest first.
    pub recent_failures: Vec<Event>,
}

/// The recorder.
#[derive(Debug)]
pub struct Telemetry {
    pub enabled: bool,
    /// The events in memory, oldest first.
    pub events: VecDeque<Event>,
    /// How many events were recorded in all.
    pub total: u64,
    pub counters: Vec<(String, Counter)>,
    pub weights_history: VecDeque<WeightSnapshot>,
    pub system_history: VecDeque<SystemStatsSnapshot>,
}

/// A ring of at most `max` items after one more arrived: the oldest goes.
pub open spec fn ring_push<T>(ring: Seq<T>, item: T, max: nat) -> Seq<T> {
    if ring.len() >= max {
        ring.skip(1).push(item)
    } else {
        ring.push(item)
    }
}

/// The number of bytes of the UTF-8 form of a character.
spec fn width(c: char) -> nat {
    vstd::utf8::encode_scalar(c as u32).len()
}

fn char_width(c: char) -> (r: usize)
    ensures
        r == width(c),
        1 <= r <= 4,
{
    let n: u32 = c as u32;
    if n <= 0x7F {
        1
    } else if n <= 0x7FF {
        2
    } else if n <= 0xFFFF {
        3
    } else {
        4
    }
}

proof fn lemma_byte_len_push(s: Seq<char>, c: char)
    ensures
        byte_len(s.push(c)) == byte_len(s) + width(c),
    decreases s.len(),
{
    let t = s.push(c);
    if s.len() == 0 {
        assert(t.drop_first() =~= Seq::empty());
        assert(vstd::utf8::encode_utf8(t.drop_first()).len() == 0);
    } else {
        assert(t.drop_first() =~= s.drop_first().push(c));
        lemma_byte_len_push(s.drop_first(), c);
    }
}

proof fn lemma_byte_len_grows(s: Seq<char>, a: int, b: int)
    requires
        0 <= a <= b <= s.len(),
    ensures
        byte_len(s.take(a)) <= byte_len(s.take(b)),
    decreases b - a,
{
    if a < b {
        lemma_byte_len_grows(s, a, b - 1);
        assert(s.take(b) =~= s.take(b - 1).push(s[b - 1]));
        lemma_byte_len_push(s.take(b - 1), s[b - 1]);
    }
}

/// The longest beginning of `s` that fits in `max` bytes is `s.take(k)`.
pub open spec fn longest_fit(s: Seq<char>, max: nat, k: int) -> bool {
    &&& 0 <= k <= s.len()
    &&& byte_len(s.take(k)) <= max
    &&& k < s.len() ==> byte_len(s.take(k + 1)) > max
}

/// `s` cut to `max` bytes: all of it where it fits, else its longest beginning
/// that fits, followed by the length of the whole.
pub open spec fn is_cut(s: Seq<char>, max: nat, r: Seq<char>) -> bool {
    if byte_len(s) <= max {
        r == s
    } else {
        exists|k: int| #[trigger]
            longest_fit(s, max, k) && r == s.take(k) + "…["@ + decimal(byte_len(s))
                + " bytes total]"@
    }
}

/// Cuts `s` to `max` bytes, at the end of a character.
pub fn truncate(s: &str, max: usize) -> (r: String)
    ensures
        is_cut(s@, max as nat, r@),
{
    let total: usize = len_in_bytes(s);
    if total <= max {
        return s.to_owned();
    }
    let chars = to_chars(s);
    let mut k: usize = 0;
    let mut used: usize = 0;
    assert(s@.take(0) =~= Seq::empty());
    assert(s@.take(s@.len() as int) =~= s@);
    while k < chars.len() && char_width(chars[k]) <= max - used
        invariant
            chars@ == s@,
            k <= s@.len(),
            used <= max,
            used == byte_len(s@.take(k as int)),
        decreases s@.len() - k,
    {
        proof {
            assert(s@.take(k + 1) =~= s@.take(k as int).push(s@[k as int]));
            lemma_byte_len_push(s@.take(k as int), s@[k as int]);
        }
        used += char_width(chars[k]);
        k += 1;
    }
    proof {
        if k < s@.len() {
            assert(s@.take(k + 1) =~= s@.take(k as int).push(s@[k as int]));
            lemma_byte_len_push(s@.take(k as int), s@[k as int]);
        }
        assert(longest_fit(s@, max as nat, k as int));
        assert(s@.subrange(0, k as int) =~= s@.take(k as int));
    }
    let digits = show_u64(total as u64);
    s.substring_char(0, k).to_owned().concat("…[").concat(digits.as_str()).concat(" bytes total]")
}

/// Cutting keeps at most `max` bytes of the text.
pub proof fn one_longest_fit(s: Seq<char>, max: nat, a: int, b: int)
    requires
        longest_fit(s, max, a),
        longest_fit(s, max, b),
    ensures
        a == b,
{
    if a < b {
        lemma_byte_len_grows(s, a + 1, b);
    } else if b < a {
        lemma_byte_len_grows(s, b + 1, a);
    }
}

/// Where telemetry goes, from the environment.
#[derive(Debug)]
pub struct TelemetrySettings {
    pub enabled: bool,
    /// The folder of the day files.
    pub dir: String,
}

impl TelemetrySettings {
    /// On unless `MNEMOS_TELEMETRY` says otherwise; the folder from
    /// `MNEMOS_TELEMETRY_DIR`.
    pub fn from_env(env: &Env) -> (r: TelemetrySettings)
        ensures
            r.enabled == match env.value("MNEMOS_TELEMETRY"@) {
                Some(v) => truthy(v),
                None => true,
            },
            r.dir@ == match env.value("MNEMOS_TELEMETRY_DIR"@) {
                Some(v) => if blank(v) {
                    "./data/helix/telemetry"@
                } else {
                    v
                },
                None => "./data/helix/telemetry"@,
            },
    {
        let dir = match env.get("MNEMOS_TELEMETRY_DIR") {
            Some(v) => if is_blank(v) {
                "./data/helix/telemetry".to_owned()
            } else {
                v.to_owned()
            },
            None => "./data/helix/telemetry".to_owned(),
        };
        TelemetrySettings { enabled: env.parse_bool_env("MNEMOS_TELEMETRY", true), dir }
    }
}

/// The event of an outcome.
pub open spec fn is_event(
    e: EventView,
    ts: Seq<char>,
    crate_name: Seq<char>,
    op: Seq<char>,
    ok: bool,
    detail: Seq<char>,
    latency_ms: u64,
) -> bool {
    &&& e.ts == ts
    &&& e.crate_name == crate_name
    &&& e.op == op
    &&& e.ok == ok
    &&& is_cut(detail, MAX_DETAIL as nat, e.detail)
    &&& e.latency_ms == latency_ms
}

/// The event of an outcome at a given time, with its detail cut.
pub fn new_event(
    ts: String,
    crate_name: &str,
    op: &str,
    ok: bool,
    detail: &str,
    latency_ms: u64,
    trace_id: &str,
    meta: Vec<(String, String)>,
) -> (r: Event)
    ensures
        is_event(r@, ts@, crate_name@, op@, ok, detail@, latency_ms),
        r.trace_id@ == trace_id@,
        r.meta == meta,
{
    Event {
        ts,
        crate_name: crate_name.to_owned(),
        op: op.to_owned(),
        ok,
        detail: truncate(detail, MAX_DETAIL),
        latency_ms,
        trace_id: trace_id.to_owned(),
        meta,
    }
}

/// `after` is the recorder `before` once it has recorded `event`: the event is
/// counted under its key, and it joins the ring, from which the oldest goes.
/// Nothing happens while the recorder is off.
pub open spec fn recorded(before: Telemetry, event: Event, after: Telemetry) -> bool {
    &&& after.enabled == before.enabled
    &&& after.weights_history == before.weights_history
    &&& after.system_history == before.system_history
    &&& if before.enabled {
        let key = event_key(event@);
        let so_far = if counts(before.counters@).dom().contains(key) {
            counts(before.counters@)[key]
        } else {
            no_counts()
        };
        &&& after.events@ == ring_push(before.events@, event, MAX_EVENTS as nat)
        &&& after.total == sum_held(before.total, 1)
        &&& counts(after.counters@) == counts(before.counters@).insert(
            key,
            so_far.counted(event.ok, event.latency_ms),
        )
        &&& before.total < u64::MAX ==> counted_in_all(after.counters@) == counted_in_all(
            before.counters@,
        ) + 1
    } else {
        after.events == before.events && after.total == before.total && after.counters
            == before.counters
    }
}

impl Telemetry {
    /// Every ring is within its bound, no key is counted twice, and the counters
    /// count every recorded event once; there are at least as many as in memory.
    /// A count at its limit says no more than that it is reached.
    pub open spec fn valid(&self) -> bool {
        &&& self.events@.len() <= MAX_EVENTS
        &&& self.events@.len() <= self.total
        &&& self.total < u64::MAX ==> counted_in_all(self.counters@) == self.total
        &&& self.weights_history@.len() <= MAX_SNAPSHOTS
        &&& self.system_history@.len() <= MAX_SNAPSHOTS
        &&& keys_differ(self.counters@)
    }

    /// The events in memory by value, oldest first.
    pub open spec fn log(&self) -> Seq<EventView> {
        event_views(self.events@)
    }

    /// An empty recorder.
    pub fn new(enabled: bool) -> (r: Telemetry)
        ensures
            r.valid(),
            r.enabled == enabled,
            r.events@.len() == 0,
            r.total == 0,
            r.counters@.len() == 0,
            r.weights_history@.len() == 0,
            r.system_history@.len() == 0,
    {
        Telemetry {
            enabled,
            events: VecDeque::new(),
            total: 0,
            counters: Vec::new(),
            weights_history: VecDeque::new(),
            system_history: VecDeque::new(),
        }
    }

    fn counter_place(&self, key: &str) -> (r: Option<usize>)
        ensures
            match r {
                Some(k) => k < self.counters@.len() && self.counters@[k as int].0@ == key@,
                None => forall|k: int|
                    0 <= k < self.counters@.len() ==> (#[trigger] self.counters@[k]).0@ != key@,
            },
    {
        let mut k: usize = 0;
        while k < self.counters.len()
            invariant
                k <= self.counters@.len(),
                forall|j: int| 0 <= j < k ==> (#[trigger] self.counters@[j]).0@ != key@,
            decreases self.counters@.len() - k,
        {
            if same(self.counters[k].0.as_str(), key) {
                return Some(k);
            }
            k += 1;
        }
        None
    }

    /// Records an event: it is counted, and it joins the ring, from which the
    /// oldest goes. Nothing happens while the recorder is off.
    pub fn push_event(&mut self, event: Event)
        requires
            old(self).valid(),
        ensures
            final(self).valid(),
            recorded(*old(self), event, *final(self)),
    {
        if !self.enabled {
            return;
        }
        let key = event.key();
        let ghost before = self.counters@;
        match self.counter_place(key.as_str()) {
            Some(k) => {
                let counted = self.counters[k].1.count(event.ok, event.latency_ms);
                proof {
                    lemma_counts(before, k as int);
                }
                self.counters.set(k, (key, counted));
                proof {
                    lemma_count_replaced(before, self.counters@, k as int);
                    lemma_total_replaced(before, self.counters@, k as int);
                }
            },
            None => {
                proof {
                    lemma_no_count(before, key@);
                }
                let counted = Counter::default().count(event.ok, event.latency_ms);
                self.counters.push((key, counted));
                proof {
                    assert(self.counters@.drop_last() =~= before);
                    assert forall|a: int, b: int| 0 <= a < b < self.counters@.len() implies (
                    #[trigger] self.counters@[a]).0@ != (#[trigger] self.counters@[b]).0@ by {
                        assert(self.counters@[a] == before[a]);
                        if b < before.len() {
                            assert(self.counters@[b] == before[b]);
                        }
                    }
                }
            },
        }
        self.total = self.total.saturating_add(1);
        let ghost ring = self.events@;
        if self.events.len() >= MAX_EVENTS {
            let _oldest = self.events.pop_front();
            assert(self.events@ =~= ring.skip(1));
        }
        self.events.push_back(event);
    }

    /// Records an outcome at the present time.
    pub fn record_with_latency(
        &mut self,
        crate_name: &str,
        op: &str,
        ok: bool,
        detail: &str,
        latency_ms: u64,
    )
        requires
            old(self).valid(),
        ensures
            final(self).valid(),
            recorded(*old(self), final(self).events@.last(), *final(self)),
            old(self).enabled ==> is_event(
                final(self).events@.last()@,
                final(self).events@.last().ts@,
                crate_name@,
                op@,
                ok,
                detail@,
                latency_ms,
            ) && final(self).events@.last().trace_id@ == ""@ && final(self).events@.last().meta@.len() == 0,
    {
        let event = new_event(
            now_rfc3339(),
            crate_name,
            op,
            ok,
            detail,
            latency_ms,
            "",
            Vec::new(),
        );
        self.push_event(event);
    }

    /// Records an outcome without a latency at the present time.
    pub fn record(&mut self, crate_name: &str, op: &str, ok: bool, detail: &str)
        requires
            old(self).valid(),
        ensures
            final(self).valid(),
            recorded(*old(self), final(self).events@.last(), *final(self)),
            old(self).enabled ==> is_event(
                final(self).events@.last()@,
                final(self).events@.last().ts@,
                crate_name@,
                op@,
                ok,
                detail@,
                0,
            ) && final(self).events@.last().trace_id@ == ""@ && final(self).events@.last().meta@.len() == 0,
    {
        self.record_with_latency(crate_name, op, ok, detail, 0);
    }

    /// Records an outcome with a session and fields at the present time.
    pub fn record_with_meta(
        &mut self,
        crate_name: &str,
        op: &str,
        ok: bool,
        detail: &str,
        latency_ms: u64,
        trace_id: &str,
        meta: Vec<(String, String)>,
    )
        requires
            old(self).valid(),
        ensures
            final(self).valid(),
            recorded(*old(self), final(self).events@.last(), *final(self)),
            old(self).enabled ==> is_event(
                final(self).events@.last()@,
                final(self).events@.last().ts@,
                crate_name@,
                op@,
                ok,
                detail@,
                latency_ms,
            ) && final(self).events@.last().trace_id@ == trace_id@ && final(self).events@.last().meta == meta,
    {
        let event = new_event(
            now_rfc3339(),
            crate_name,
            op,
            ok,
            detail,
            latency_ms,
            trace_id,
            meta,
        );
        self.push_event(event);
    }

    /// Keeps a snapshot of the edge weights.
    pub fn record_weights(&mut self, weights: Json)
        requires
            old(self).valid(),
        ensures
            final(self).valid(),
            final(self).enabled == old(self).enabled,
            final(self).events == old(self).events,
            final(self).total == old(self).total,
            final(self).counters == old(self).counters,
            final(self).system_history == old(self).system_history,
            if old(self).enabled {
                &&& final(self).weights_history@.len() > 0
                &&& final(self).weights_history@ == ring_push(
                    old(self).weights_history@,
                    final(self).weights_history@.last(),
                    MAX_SNAPSHOTS as nat,
                )
                &&& final(self).weights_history@.last().weights == weights
            } else {
                final(self).weights_history == old(self).weights_history
            },
    {
        if !self.enabled {
            return;
        }
        let ghost ring = self.weights_history@;
        if self.weights_history.len() >= MAX_SNAPSHOTS {
            let _oldest = self.weights_history.pop_front();
            assert(self.weights_history@ =~= ring.skip(1));
        }
        self.weights_history.push_back(WeightSnapshot { ts: now_rfc3339(), weights });
    }

    /// Keeps a snapshot of the aggregate counts.
    pub fn record_system_stats(&mut self, stats: Json)
        requires
            old(self).valid(),
        ensures
            final(self).valid(),
            final(self).enabled == old(self).enabled,
            final(self).events == old(self).events,
            final(self).total == old(self).total,
            final(self).counters == old(self).counters,
            final(self).weights_history == old(self).weights_history,
            if old(self).enabled {
                &&& final(self).system_history@.len() > 0
                &&& final(self).system_history@ == ring_push(
                    old(self).system_history@,
                    final(self).system_history@.last(),
                    MAX_SNAPSHOTS as nat,
                )
                &&& final(self).system_history@.last().stats == stats
            } else {
                final(self).system_history == old(self).system_history
            },
    {
        if !self.enabled {
            return;
        }
        let ghost ring = self.system_history@;
        if self.system_history.len() >= MAX_SNAPSHOTS {
            let _oldest = self.system_history.pop_front();
            assert(self.system_history@ =~= ring.skip(1));
        }
        self.system_history.push_back(SystemStatsSnapshot { ts: now_rfc3339(), stats });
    }

    /// The latest `limit` events, newest first.
    pub fn latest(&self, limit: usize) -> (r: Vec<Event>)
        ensures
            event_views(r@) == at_most(self.log().reverse(), limit as nat),
    {
        let n: usize = self.events.len();
        let mut out: Vec<Event> = Vec::new();
        let mut i: usize = n;
        while i > 0 && out.len() < limit
            invariant
                n == self.events@.len(),
                i <= n,
                out@.len() == n - i,
                out@.len() <= limit,
                forall|j: int|
                    0 <= j < out@.len() ==> (#[trigger] out@[j])@ == self.events@[n - 1 - j]@,
            decreases i,
        {
            out.push(self.events[i - 1].copy());
            i -= 1;
        }
        assert(event_views(out@) =~= at_most(self.log().reverse(), limit as nat));
        out
    }

    /// The events in memory, newest first.
    pub fn snapshot(&self) -> (r: Vec<Event>)
        ensures
            event_views(r@) == self.log().reverse(),
    {
        self.latest(self.events.len())
    }

    /// The failing operations, in the order of their first failure.
    fn failing(&self) -> (r: Vec<FailurePair>)
        ensures
            pair_views(r@) == failure_pairs(self.log()),
    {
        let mut out: Vec<FailurePair> = Vec::new();
        let n: usize = self.events.len();
        let mut i: usize = 0;
        let ghost log = self.log();
        assert(pair_views(out@) =~= failure_pairs(log.take(0)));
        while i < n
            invariant
                n == self.events@.len(),
                i <= n,
                log == self.log(),
                pair_views(out@) == failure_pairs(log.take(i as int)),
            decreases n - i,
        {
            let e = &self.events[i];
            let ghost before = pair_views(out@);
            let ghost old_out = out@;
            proof {
                assert(log.take(i + 1).drop_last() =~= log.take(i as int));
                assert(log.take(i + 1).last() == e@);
            }
            if !e.ok {
                let key = e.key();
                let mut k: usize = out.len();
                assert(before.take(k as int) =~= before);
                while k > 0 && !same(out[k - 1].key.as_str(), key.as_str())
                    invariant
                        k <= out@.len(),
                        out@ == old_out,
                        before == pair_views(out@),
                        pair_place(before, key@) == pair_place(before.take(k as int), key@),
                    decreases k,
                {
                    assert(before.take(k as int).drop_last() =~= before.take(k - 1));
                    assert(before.take(k as int).last() == out@[k - 1]@);
                    k -= 1;
                }
                if k > 0 {
                    assert(before.take(k as int).last() == out@[k - 1]@);
                    let count: u64 = out[k - 1].count.saturating_add(1);
                    out.set(k - 1, FailurePair { key, count, latest: e.detail.clone() });
                    assert(pair_views(out@) =~= failure_pairs(log.take(i + 1)));
                } else {
                    out.push(FailurePair { key, count: 1, latest: e.detail.clone() });
                    assert(pair_views(out@) =~= failure_pairs(log.take(i + 1)));
                }
            }
            i += 1;
        }
        assert(log.take(i as int) =~= log);
        out
    }

    /// Failures by operation, with the latest reason of each.
    pub fn failure_summary(&self) -> (r: FailureSummary)
        ensures
            r.total == self.total,
            r.failures@.len() == failure_pairs(self.log()).len(),
            r.latest_detail@.len() == failure_pairs(self.log()).len(),
            forall|k: int|
                0 <= k < r.failures@.len() ==> (#[trigger] r.failures@[k]).0@ == failure_pairs(
                    self.log(),
                )[k].key && r.failures@[k].1 == failure_pairs(self.log())[k].count,
            forall|k: int|
                0 <= k < r.latest_detail@.len() ==> (#[trigger] r.latest_detail@[k]).0@
                    == failure_pairs(self.log())[k].key && r.latest_detail@[k].1@ == failure_pairs(
                    self.log(),
                )[k].latest,
    {
        let pairs = self.failing();
        let ghost views = failure_pairs(self.log());
        let mut failures: Vec<(String, u64)> = Vec::new();
        let mut latest_detail: Vec<(String, String)> = Vec::new();
        let mut i: usize = 0;
        while i < pairs.len()
            invariant
                i <= pairs@.len(),
                views == pair_views(pairs@),
                failures@.len() == i,
                latest_detail@.len() == i,
                forall|k: int|
                    0 <= k < i ==> (#[trigger] failures@[k]).0@ == views[k].key && failures@[k].1
                        == views[k].count,
                forall|k: int|
                    0 <= k < i ==> (#[trigger] latest_detail@[k]).0@ == views[k].key
                        && latest_detail@[k].1@ == views[k].latest,
            decreases pairs@.len() - i,
        {
            assert(views[i as int] == pairs@[i as int]@);
            failures.push((pairs[i].key.clone(), pairs[i].count));
            latest_detail.push((pairs[i].key.clone(), pairs[i].latest.clone()));
            i += 1;
        }
        FailureSummary { total: self.total, failures, latest_detail }
    }

    /// The latest `limit` failures, newest first.
    fn recent_failures(&self, limit: usize) -> (r: Vec<Event>)
        ensures
            event_views(r@) == at_most(failed_latest_first(self.log()), limit as nat),
    {
        let n: usize = self.events.len();
        let mut out: Vec<Event> = Vec::new();
        let mut i: usize = n;
        let ghost log = self.log();
        let ghost all = failed_latest_first(log);
        proof {
            assert(log.take(n as int) =~= log);
            assert(event_views(out@) + all =~= all);
        }
        while i > 0 && out.len() < limit
            invariant
                n == self.events@.len(),
                i <= n,
                log == self.log(),
                all == failed_latest_first(log),
                out@.len() <= limit,
                event_views(out@) + failed_latest_first(log.take(i as int)) == all,
            decreases i,
        {
            let e = &self.events[i - 1];
            let ghost before = event_views(out@);
            let ghost rest = failed_latest_first(log.take(i - 1));
            proof {
                assert(log.take(i as int).drop_last() =~= log.take(i - 1));
                assert(log.take(i as int).last() == e@);
            }
            if !e.ok {
                out.push(e.copy());
                assert(event_views(out@) =~= before.push(e@));
                assert(before + (seq![e@] + rest) =~= before.push(e@) + rest);
            }
            i -= 1;
        }
        proof {
            assert(event_views(out@).len() == out@.len());
            if i == 0 {
                assert(failed_latest_first(log.take(0)) =~= Seq::empty());
                assert(event_views(out@) =~= all);
            }
            assert(event_views(out@) =~= at_most(all, limit as nat));
        }
        out
    }

    /// What failed and why: the failing operations, most failures first, and the
    /// latest `recent_n` failures.
    pub fn diagnose(&self, recent_n: usize) -> (r: Diagnosis)
        requires
            self.valid(),
        ensures
            r.total_events == self.total,
            r.total_failures == failures(self.log()),
            r.total_failures <= r.total_events,
            is_ranked(
                failure_pairs(self.log()),
                pair_keys(failure_pairs(self.log())),
                pair_views(r.top_failures@),
            ),
            event_views(r.recent_failures@) == at_most(
                failed_latest_first(self.log()),
                recent_n as nat,
            ),
    {
        let pairs = self.failing();
        let ghost items = pairs@;
        let mut keys: Vec<i128> = Vec::new();
        let mut i: usize = 0;
        while i < pairs.len()
            invariant
                i <= pairs@.len(),
                keys@.len() == i,
                forall|k: int| 0 <= k < i ==> keys@[k] == pairs@[k].count,
            decreases pairs@.len() - i,
        {
            keys.push(pairs[i].count as i128);
            i += 1;
        }
        assert(keys@ =~= pair_keys(pair_views(items)));
        let top_failures = rank_by(pairs, &keys);
        proof {
            lemma_ranked_views(items, keys@, top_failures@);
        }
        let n: usize = self.events.len();
        let mut total_failures: u64 = 0;
        let mut j: usize = 0;
        let ghost log = self.log();
        while j < n
            invariant
                n == self.events@.len(),
                j <= n,
                log == self.log(),
                total_failures == failures(log.take(j as int)),
                total_failures <= j,
            decreases n - j,
        {
            proof {
                assert(log.take(j + 1).drop_last() =~= log.take(j as int));
                assert(log.take(j + 1).last() == self.events@[j as int]@);
            }
            if !self.events[j].ok {
                total_failures = total_failures + 1;
            }
            j += 1;
        }
        assert(log.take(j as int) =~= log);
        assert(log.len() == self.events@.len());
        Diagnosis {
            total_events: self.total,
            total_failures,
            top_failures,
            recent_failures: self.recent_failures(recent_n),
        }
    }

    /// The counters of each operation.
    pub fn counters_snapshot(&self) -> (r: Vec<(String, Counter)>)
        ensures
            r@.len() == self.counters@.len(),
            forall|k: int|
                0 <= k < r@.len() ==> (#[trigger] r@[k]).0@ == self.counters@[k].0@ && r@[k].1
                    == self.counters@[k].1,
            counts(r@) == counts(self.counters@),
    {
        let mut out: Vec<(String, Counter)> = Vec::new();
        let mut i: usize = 0;
        assert(counts(out@) =~= counts(self.counters@.take(0)));
        while i < self.counters.len()
            invariant
                i <= self.counters@.len(),
                out@.len() == i,
                counts(out@) == counts(self.counters@.take(i as int)),
                forall|k: int|
                    0 <= k < i ==> (#[trigger] out@[k]).0@ == self.counters@[k].0@ && out@[k].1
                        == self.counters@[k].1,
            decreases self.counters@.len() - i,
        {
            let ghost before = out@;
            out.push((self.counters[i].0.clone(), self.counters[i].1));
            proof {
                assert(out@.drop_last() =~= before);
                assert(self.counters@.take(i + 1).drop_last() =~= self.counters@.take(i as int));
            }
            i += 1;
        }
        assert(self.counters@.take(i as int) =~= self.counters@);
        out
    }
}

/// The ranking keys of failing operations: their failures.
pub open spec fn pair_keys(pairs: Seq<PairView>) -> Seq<i128> {
    pairs.map_values(|p: PairView| p.count as i128)
}

proof fn lemma_ranked_views(items: Seq<FailurePair>, keys: Seq<i128>, out: Seq<FailurePair>)
    requires
        is_ranked(items, keys, out),
        items.len() == keys.len(),
    ensures
        is_ranked(pair_views(items), keys, pair_views(out)),
{
    let order = choose|order: Seq<int>| #[trigger]
        is_ranking(keys, order) && is_reordered(items, order, out);
    assert(is_reordered(pair_views(items), order, pair_views(out))) by {
        assert forall|k: int| 0 <= k < order.len() implies #[trigger] pair_views(out)[k]
            == pair_views(items)[order[k]] by {
            assert(out[k] == items[order[k]]);
        }
    }
}

/// The ring keeps the newest events: after one more, the earlier ones that stay
/// are those that were newest, in their order.
pub proof fn ring_keeps_the_newest<T>(ring: Seq<T>, item: T, max: nat, k: int)
    requires
        max > 0,
        ring.len() <= max,
        0 <= k < ring_push(ring, item, max).len(),
    ensures
        ring_push(ring, item, max).len() <= max,
        ring_push(ring, item, max)[ring_push(ring, item, max).len() - 1 - k] == if k == 0 {
            item
        } else {
            ring[ring.len() - k]
        },
{
}

/// `YYYY-MM-DD`, all digits but the dashes.
pub open spec fn is_date(s: Seq<char>) -> bool {
    &&& s.len() == 10
    &&& s[4] == '-'
    &&& s[7] == '-'
    &&& forall|i: int| 0 <= i < 10 && i != 4 && i != 7 ==> digit(#[trigger] s[i])
}

/// The day of a date as one number: year, month and day in its digits.
pub open spec fn day_number(s: Seq<char>) -> nat {
    digits_value(s.subrange(0, 4) + s.subrange(5, 7) + s.subrange(8, 10))
}

/// Metadata of one day's file.
#[derive(Debug)]
pub struct TelemetryFile {
    /// Always the date and `.jsonl`.
    pub name: String,
    pub date: String,
    pub size_bytes: u64,
    /// How many of its lines are events.
    pub events: usize,
}

/// The most events that one page of a day holds.
pub const MAX_PAGE: usize = 5000;

/// The events with the wanted outcome, newest first.
pub open spec fn matching_latest_first(events: Seq<EventView>, ok_only: Option<bool>) -> Seq<
    EventView,
>
    decreases events.len(),
{
    if events.len() == 0 {
        Seq::empty()
    } else if ok_only is None || ok_only == Some(events.last().ok) {
        seq![events.last()] + matching_latest_first(events.drop_last(), ok_only)
    } else {
        matching_latest_first(events.drop_last(), ok_only)
    }
}

/// `s` without its first `n`.
pub open spec fn skipped<T>(s: Seq<T>, n: nat) -> Seq<T> {
    if n <= s.len() {
        s.skip(n as int)
    } else {
        Seq::empty()
    }
}

/// A page of events, newest first: those with the wanted outcome, without the
/// first `offset`, at most `limit` and never more than [`MAX_PAGE`].
pub open spec fn page_of(
    events: Seq<EventView>,
    limit: nat,
    offset: nat,
    ok_only: Option<bool>,
) -> Seq<EventView> {
    at_most(
        skipped(matching_latest_first(events, ok_only), offset),
        if limit <= MAX_PAGE {
            limit
        } else {
            MAX_PAGE as nat
        },
    )
}

/// A file in the telemetry folder.
#[derive(Debug)]
pub struct FoundFile {
    pub name: String,
    pub size_bytes: u64,
    /// How many of its lines are events.
    pub events: usize,
}

/// A file in the telemetry folder by value.
pub struct FoundView {
    pub name: Seq<char>,
    pub size_bytes: u64,
    pub events: usize,
}

/// A day's file by value.
pub struct FileView {
    pub name: Seq<char>,
    pub date: Seq<char>,
    pub size_bytes: u64,
    pub events: usize,
}

impl FoundFile {
    pub open spec fn view(&self) -> FoundView {
        FoundView { name: self.name@, size_bytes: self.size_bytes, events: self.events }
    }
}

impl TelemetryFile {
    pub open spec fn view(&self) -> FileView {
        FileView {
            name: self.name@,
            date: self.date@,
            size_bytes: self.size_bytes,
            events: self.events,
        }
    }
}

/// Found files by value.
pub open spec fn found_views(found: Seq<FoundFile>) -> Seq<FoundView> {
    found.map_values(|f: FoundFile| f@)
}

/// Day files by value.
pub open spec fn file_views(files: Seq<TelemetryFile>) -> Seq<FileView> {
    files.map_values(|f: TelemetryFile| f@)
}

/// The name of a day's file: a date and `.jsonl`.
pub open spec fn is_day_file(name: Seq<char>) -> bool {
    name.len() == 16 && is_date(name.take(10)) && name.skip(10) == ".jsonl"@
}

/// The day files among those found, in their order.
pub open spec fn day_files(found: Seq<FoundView>) -> Seq<FileView>
    decreases found.len(),
{
    if found.len() == 0 {
        Seq::empty()
    } else {
        let before = day_files(found.drop_last());
        let f = found.last();
        if is_day_file(f.name) {
            before.push(
                FileView {
                    name: f.name,
                    date: f.name.take(10),
                    size_bytes: f.size_bytes,
                    events: f.events,
                },
            )
        } else {
            before
        }
    }
}

impl Telemetry {
    /// Whether `date` is a plain date; nothing else may name a day's file.
    pub fn valid_date(date: &str) -> (r: bool)
        ensures
            r == is_date(date@),
    {
        let chars = to_chars(date);
        if chars.len() != 10 || chars[4] != '-' || chars[7] != '-' {
            return false;
        }
        let mut i: usize = 0;
        while i < 10
            invariant
                i <= 10,
                chars@ == date@,
                chars@.len() == 10,
                forall|j: int| 0 <= j < i && j != 4 && j != 7 ==> digit(#[trigger] date@[j]),
            decreases 10 - i,
        {
            if i != 4 && i != 7 && (chars[i] < '0' || chars[i] > '9') {
                assert(!digit(date@[i as int]));
                return false;
            }
            i += 1;
        }
        true
    }

    /// The date in the name of a day's file.
    pub fn date_of_file(name: &str) -> (r: Option<String>)
        ensures
            match r {
                Some(date) => is_date(date@) && name@ == date@ + ".jsonl"@,
                None => forall|date: Seq<char>| is_date(date) ==> name@ != #[trigger] (date
                    + ".jsonl"@),
            },
    {
        let n: usize = name.unicode_len();
        proof {
            reveal_strlit(".jsonl");
        }
        if n != 16 {
            assert forall|date: Seq<char>| is_date(date) implies name@ != #[trigger] (date
                + ".jsonl"@) by {
                assert((date + ".jsonl"@).len() == 16);
            }
            return None;
        }
        let date = name.substring_char(0, 10);
        let tail = name.substring_char(10, 16);
        if same(tail, ".jsonl") && Telemetry::valid_date(date) {
            assert(name@ =~= date@ + ".jsonl"@);
            Some(date.to_owned())
        } else {
            assert forall|d: Seq<char>| is_date(d) implies name@ != #[trigger] (d + ".jsonl"@) by {
                if name@ == d + ".jsonl"@ {
                    assert(date@ =~= d);
                    assert(tail@ =~= ".jsonl"@);
                }
            }
            None
        }
    }

    /// The name of a day's file; none where `date` is no date.
    pub fn day_file(date: &str) -> (r: Option<String>)
        ensures
            match r {
                Some(name) => is_date(date@) && name@ == date@ + ".jsonl"@,
                None => !is_date(date@),
            },
    {
        if Telemetry::valid_date(date) {
            Some(date.to_owned().concat(".jsonl"))
        } else {
            None
        }
    }

    /// A page of the events of a day, newest first; none where `date` is no date,
    /// or where the day has no file. `found` are the events of the file.
    pub fn read_file(
        date: &str,
        found: Option<Vec<Event>>,
        limit: usize,
        offset: usize,
        ok_only: Option<bool>,
    ) -> (r: Option<Vec<Event>>)
        ensures
            match (r, found) {
                (Some(page), Some(events)) => is_date(date@) && event_views(page@) == page_of(
                    event_views(events@),
                    limit as nat,
                    offset as nat,
                    ok_only,
                ),
                (Some(_), None) => false,
                (None, Some(_)) => !is_date(date@),
                (None, None) => true,
            },
    {
        if !Telemetry::valid_date(date) {
            return None;
        }
        match found {
            Some(events) => Some(Telemetry::page(events, limit, offset, ok_only)),
            None => None,
        }
    }

    /// The day files among those found in the folder, newest first.
    pub fn telemetry_files(found: Vec<FoundFile>) -> (r: Vec<TelemetryFile>)
        ensures
            is_ranked(
                day_files(found_views(found@)),
                day_keys(day_files(found_views(found@))),
                file_views(r@),
            ),
    {
        let ghost all = found_views(found@);
        let mut files: Vec<TelemetryFile> = Vec::new();
        let mut i: usize = 0;
        assert(file_views(files@) =~= day_files(all.take(0)));
        while i < found.len()
            invariant
                i <= found@.len(),
                all == found_views(found@),
                file_views(files@) == day_files(all.take(i as int)),
                forall|k: int| 0 <= k < files@.len() ==> is_date((#[trigger] files@[k]).date@),
            decreases found@.len() - i,
        {
            let ghost before = files@;
            proof {
                assert(all.take(i + 1).drop_last() =~= all.take(i as int));
                assert(all.take(i + 1).last() == found@[i as int]@);
                reveal_strlit(".jsonl");
            }
            let f = &found[i];
            match Telemetry::date_of_file(f.name.as_str()) {
                Some(date) => {
                    proof {
                        assert(f.name@.take(10) =~= date@);
                        assert(f.name@.skip(10) =~= ".jsonl"@);
                    }
                    files.push(
                        TelemetryFile {
                            name: f.name.clone(),
                            date,
                            size_bytes: f.size_bytes,
                            events: f.events,
                        },
                    );
                    assert(file_views(files@) =~= file_views(before).push(files@.last()@));
                },
                None => {
                    proof {
                        if is_day_file(f.name@) {
                            assert(f.name@ =~= f.name@.take(10) + ".jsonl"@);
                        }
                    }
                },
            }
            i += 1;
        }
        assert(all.take(i as int) =~= all);
        newest_first(files)
    }

    /// A page of one day's events, newest first: those with the wanted outcome,
    /// without the first `offset`, at most `limit` and never more than
    /// [`MAX_PAGE`].
    fn page(events: Vec<Event>, limit: usize, offset: usize, ok_only: Option<bool>) -> (r: Vec<
        Event,
    >)
        ensures
            event_views(r@) == page_of(
                event_views(events@),
                limit as nat,
                offset as nat,
                ok_only,
            ),
    {
        let limit: usize = if limit <= MAX_PAGE {
            limit
        } else {
            MAX_PAGE
        };
        let ghost all = event_views(events@);
        let ghost wanted = matching_latest_first(all, ok_only);
        let mut rest = events;
        let mut to_skip: usize = offset;
        let mut out: Vec<Event> = Vec::new();
        proof {
            assert(event_views(out@) + skipped(wanted, offset as nat) =~= skipped(
                wanted,
                offset as nat,
            ));
        }
        while rest.len() > 0 && out.len() < limit
            invariant
                out@.len() <= limit,
                wanted == matching_latest_first(all, ok_only),
                to_skip > 0 ==> out@.len() == 0,
                event_views(out@) + skipped(
                    matching_latest_first(event_views(rest@), ok_only),
                    to_skip as nat,
                ) == skipped(wanted, offset as nat),
            decreases rest@.len(),
        {
            let ghost before = event_views(rest@);
            let ghost old_out = event_views(out@);
            let e = rest.pop().unwrap();
            let ghost later = matching_latest_first(event_views(rest@), ok_only);
            proof {
                assert(event_views(rest@) =~= before.drop_last());
                assert(before.last() == e@);
            }
            let wants = match ok_only {
                Some(ok) => ok == e.ok,
                None => true,
            };
            if wants {
                if to_skip > 0 {
                    assert(skipped(seq![e@] + later, to_skip as nat) =~= skipped(
                        later,
                        (to_skip - 1) as nat,
                    ));
                    to_skip -= 1;
                } else {
                    let ghost added = e@;
                    out.push(e);
                    proof {
                        assert(event_views(out@) =~= old_out.push(added));
                        assert(skipped(seq![added] + later, 0) =~= seq![added] + later);
                        assert(skipped(later, 0) =~= later);
                        assert(old_out + (seq![added] + later) =~= old_out.push(added) + later);
                    }
                }
            }
        }
        proof {
            assert(event_views(out@).len() == out@.len());
            let tail = skipped(matching_latest_first(event_views(rest@), ok_only), to_skip as nat);
            if rest@.len() == 0 {
                assert(tail =~= Seq::empty());
                assert(event_views(out@) + tail =~= event_views(out@));
            }
            assert(event_views(out@) =~= at_most(skipped(wanted, offset as nat), limit as nat));
        }
        out
    }
}

/// The ranking keys of day files.
pub open spec fn day_keys(files: Seq<FileView>) -> Seq<i128> {
    files.map_values(|f: FileView| day_number(f.date) as i128)
}

fn day_key(date: &str) -> (r: i128)
    requires
        is_date(date@),
    ensures
        r == day_number(date@),
        0 <= r < 100_000_000,
{
    let chars = to_chars(date);
    let ghost text = date@.subrange(0, 4) + date@.subrange(5, 7) + date@.subrange(8, 10);
    let mut value: i128 = 0;
    let mut i: usize = 0;
    let ghost mut done: int = 0;
    let ghost mut bound: int = 1;
    while i < 10
        invariant
            i <= 10,
            chars@ == date@,
            is_date(date@),
            text == date@.subrange(0, 4) + date@.subrange(5, 7) + date@.subrange(8, 10),
            text.len() == 8,
            done == if i <= 4 {
                i as int
            } else if i <= 7 {
                i - 1
            } else {
                i - 2
            },
            value == digits_value(text.take(done)),
            0 <= value < bound,
            bound == pow_ten(done),
        decreases 10 - i,
    {
        if i != 4 && i != 7 {
            let c: char = chars[i];
            assert(digit(date@[i as int]));
            let d: i128 = (c as u32 - '0' as u32) as i128;
            proof {
                assert(text[done] == c);
                assert(text.take(done + 1).drop_last() =~= text.take(done));
                assert(text.take(done + 1).last() == c);
                assert(bound <= 10_000_000) by {
                    reveal_with_fuel(pow_ten, 9);
                }
                done = done + 1;
                bound = bound * 10;
            }
            value = value * 10 + d;
        }
        i += 1;
    }
    proof {
        reveal_with_fuel(pow_ten, 9);
        assert(text.take(8) =~= text);
    }
    value
}

spec fn pow_ten(n: int) -> int
    decreases n,
{
    if n <= 0 {
        1
    } else {
        10 * pow_ten(n - 1)
    }
}

/// The day files, newest first.
fn newest_first(files: Vec<TelemetryFile>) -> (r: Vec<TelemetryFile>)
    requires
        forall|k: int| 0 <= k < files@.len() ==> is_date((#[trigger] files@[k]).date@),
    ensures
        is_ranked(file_views(files@), day_keys(file_views(files@)), file_views(r@)),
{
    let ghost items = files@;
    let mut keys: Vec<i128> = Vec::new();
    let mut i: usize = 0;
    while i < files.len()
        invariant
            i <= files@.len(),
            keys@.len() == i,
            forall|k: int| 0 <= k < files@.len() ==> is_date((#[trigger] files@[k]).date@),
            forall|k: int| 0 <= k < i ==> keys@[k] == day_number(files@[k].date@),
        decreases files@.len() - i,
    {
        keys.push(day_key(files[i].date.as_str()));
        i += 1;
    }
    assert(keys@ =~= day_keys(file_views(items)));
    let out = rank_by(files, &keys);
    proof {
        let order = choose|order: Seq<int>| #[trigger]
            is_ranking(keys@, order) && is_reordered(items, order, out@);
        assert(is_reordered(file_views(items), order, file_views(out@))) by {
            assert forall|k: int| 0 <= k < order.len() implies #[trigger] file_views(out@)[k]
                == file_views(items)[order[k]] by {
                assert(out@[k] == items[order[k]]);
            }
        }
    }
    out
}

/// A date names no path: it holds neither a slash nor a dot.
pub proof fn dates_name_no_path(date: Seq<char>)
    requires
        is_date(date),
    ensures
        !date.contains('/'),
        !date.contains('.'),
{
    assert forall|i: int| 0 <= i < date.len() implies date[i] != '/' && date[i] != '.' by {
        if i != 4 && i != 7 {
            assert(digit(date[i]));
        }
    }
}

/// An outcome counts once: in all, and as a success or as a failure; its latency
/// joins the sum and lies between the least and the greatest.
pub proof fn outcomes_count_once(c: Counter, ok: bool, latency_ms: u64)
    requires
        c.total < u64::MAX,
        c.ok < u64::MAX,
        c.err < u64::MAX,
        c.latency_sum_ms + latency_ms <= u64::MAX,
    ensures
        ({
            let after = c.counted(ok, latency_ms);
            &&& after.total == c.total + 1
            &&& ok ==> after.ok == c.ok + 1 && after.err == c.err
            &&& !ok ==> after.err == c.err + 1 && after.ok == c.ok
            &&& after.latency_sum_ms == c.latency_sum_ms + latency_ms
            &&& after.latency_min_ms <= latency_ms <= after.latency_max_ms
            &&& c.total > 0 ==> after.latency_min_ms <= c.latency_min_ms && after.latency_max_ms
                >= c.latency_max_ms
            &&& after.latency_min_ms == latency_ms || after.latency_min_ms == c.latency_min_ms
            &&& after.latency_max_ms == latency_ms || after.latency_max_ms == c.latency_max_ms
            &&& c.total == 0 ==> after.latency_min_ms == latency_ms && after.latency_max_ms
                == latency_ms
        }),
{
}

/// What is recorded is the newest event, the others keep their order, and beyond a
/// thousand and twenty-four the oldest goes. A recorder that is off keeps all as
/// it was.
pub proof fn recorded_events_come_last(before: Telemetry, event: Event, after: Telemetry)
    requires
        before.valid(),
        recorded(before, event, after),
    ensures
        before.enabled ==> after.events@.len() > 0 && after.events@.last() == event,
        before.enabled && before.events@.len() < 1024 ==> after.events@ == before.events@.push(event),
        before.enabled && before.events@.len() == 1024 ==> after.events@ == before.events@.skip(
            1,
        ).push(event),
        before.enabled && before.total < u64::MAX ==> after.total == before.total + 1,
        !before.enabled ==> after.events@ == before.events@ && after.total == before.total
            && after.counters == before.counters,
{
}

/// An event keeps what it is told; a detail of five hundred bytes or fewer stays as
/// it is, and of a longer one the beginning.
pub proof fn events_keep_what_they_are_told(
    e: EventView,
    ts: Seq<char>,
    crate_name: Seq<char>,
    op: Seq<char>,
    ok: bool,
    detail: Seq<char>,
    latency_ms: u64,
)
    requires
        is_event(e, ts, crate_name, op, ok, detail, latency_ms),
    ensures
        e.ts == ts,
        e.crate_name == crate_name,
        e.op == op,
        e.ok == ok,
        e.latency_ms == latency_ms,
        byte_len(detail) <= 500 ==> e.detail == detail,
        byte_len(detail) > 500 ==> exists|k: int|
            0 <= k < detail.len() && byte_len(#[trigger] detail.take(k)) <= 500 && byte_len(
                detail.take(k + 1),
            ) > 500 && detail.take(k).is_prefix_of(e.detail),
{
    if byte_len(detail) > 500 {
        let k = choose|k: int| #[trigger]
            longest_fit(detail, MAX_DETAIL as nat, k) && e.detail == detail.take(k) + "…["@
                + decimal(byte_len(detail)) + " bytes total]"@;
        assert(detail.take(detail.len() as int) =~= detail);
        assert(k < detail.len());
        assert(e.detail.take(k) =~= detail.take(k));
        assert(detail.take(k).is_prefix_of(e.detail));
    }
}

proof fn lemma_reversed_push<T>(s: Seq<T>, x: T)
    ensures
        s.push(x).reverse() == seq![x] + s.reverse(),
{
    assert(s.push(x).reverse() =~= seq![x] + s.reverse());
}

/// The failures of a log are its events that did not succeed, newest first, and
/// they are counted as many as they are.
pub proof fn failures_come_newest_first(events: Seq<EventView>)
    ensures
        failed_latest_first(events) == events.filter(|e: EventView| !e.ok).reverse(),
        failures(events) == events.filter(|e: EventView| !e.ok).len(),
    decreases events.len(),
{
    reveal(Seq::filter);
    let failed = |e: EventView| !e.ok;
    if events.len() > 0 {
        let fewer = events.drop_last();
        failures_come_newest_first(fewer);
        if !events.last().ok {
            lemma_reversed_push(fewer.filter(failed), events.last());
        }
    } else {
        assert(events.filter(failed).reverse() =~= Seq::empty());
    }
}

/// How many events failed under a key: those that failed and have it.
pub proof fn failures_are_counted_by_key(events: Seq<EventView>, key: Seq<char>)
    ensures
        failures_under(events, key) == events.filter(
            |e: EventView| !e.ok && e.crate_name + "::"@ + e.op == key,
        ).len(),
    decreases events.len(),
{
    reveal(Seq::filter);
    if events.len() > 0 {
        failures_are_counted_by_key(events.drop_last(), key);
    }
}

/// What a page is cut from: the events with the wanted outcome, newest first, and
/// all of them where none is wanted.
pub proof fn matches_come_newest_first(events: Seq<EventView>, ok_only: Option<bool>)
    ensures
        matching_latest_first(events, ok_only) == events.filter(
            |e: EventView| ok_only is None || ok_only == Some(e.ok),
        ).reverse(),
    decreases events.len(),
{
    reveal(Seq::filter);
    let wanted = |e: EventView| ok_only is None || ok_only == Some(e.ok);
    if events.len() > 0 {
        let fewer = events.drop_last();
        matches_come_newest_first(fewer, ok_only);
        if wanted(events.last()) {
            lemma_reversed_push(fewer.filter(wanted), events.last());
        }
    } else {
        assert(events.filter(wanted).reverse() =~= Seq::empty());
    }
}

/// A page holds, from its offset on, as many of the wanted events as it may and
/// there are, never more than five thousand.
pub proof fn pages_hold_what_is_wanted(
    events: Seq<EventView>,
    limit: nat,
    offset: nat,
    ok_only: Option<bool>,
    k: int,
)
    ensures
        ({
            let all = events.filter(
                |e: EventView| ok_only is None || ok_only == Some(e.ok),
            ).reverse();
            let page = page_of(events, limit, offset, ok_only);
            &&& page.len() <= limit
            &&& page.len() <= 5000
            &&& offset >= all.len() ==> page.len() == 0
            &&& offset < all.len() && page.len() < limit && page.len() < 5000 ==> offset
                + page.len() == all.len()
            &&& 0 <= k < page.len() ==> page[k] == all[offset + k]
        }),
{
    matches_come_newest_first(events, ok_only);
}

/// Two pages one behind the other are one page of both lengths: nothing is shown
/// twice, and nothing is left out.
pub proof fn pages_follow_each_other(
    events: Seq<EventView>,
    limit: nat,
    offset: nat,
    ok_only: Option<bool>,
)
    requires
        2 * limit <= 5000,
    ensures
        page_of(events, limit, offset, ok_only) + page_of(events, limit, offset + limit, ok_only)
            == page_of(events, 2 * limit, offset, ok_only),
{
    assert(page_of(events, limit, offset, ok_only) + page_of(
        events,
        limit,
        offset + limit,
        ok_only,
    ) =~= page_of(events, 2 * limit, offset, ok_only));
}

/// The day files of a folder are those that a date names, each with its own size
/// and count.
pub proof fn dated_files_are_listed(found: Seq<FoundView>)
    ensures
        day_files(found) == found.filter(|f: FoundView| is_day_file(f.name)).map_values(
            |f: FoundView|
                FileView {
                    name: f.name,
                    date: f.name.take(10),
                    size_bytes: f.size_bytes,
                    events: f.events,
                },
        ),
    decreases found.len(),
{
    reveal(Seq::filter);
    let dated = |f: FoundView| is_day_file(f.name);
    let listed = |f: FoundView|
        FileView {
            name: f.name,
            date: f.name.take(10),
            size_bytes: f.size_bytes,
            events: f.events,
        };
    if found.len() > 0 {
        dated_files_are_listed(found.drop_last());
    }
    assert(day_files(found) =~= found.filter(dated).map_values(listed));
}

/// A date and the ending of a day's file name one, and nothing else does.
pub proof fn dates_name_day_files(date: Seq<char>)
    requires
        date.len() == 10,
    ensures
        is_day_file(date + ".jsonl"@) <==> is_date(date),
{
    reveal_strlit(".jsonl");
    let name = date + ".jsonl"@;
    assert(name.take(10) =~= date);
    assert(name.skip(10) =~= ".jsonl"@);
}

} // verus!
