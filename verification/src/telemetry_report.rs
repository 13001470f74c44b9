//! Telemetry as a dashboard reads it: the recorder, its diagnosis and its day
//! files as JSON.

use crate::json::{
    entries_view, field, items_view, lemma_lookup_push, list, no_fields, Json, JsonNumber, JsonView,
    ObjectBuilder,
};
use crate::ranking::is_ranked;
use crate::retrieval::at_most;
use crate::telemetry::{
    event_views, failed_latest_first, failure_pairs, failures, meta_view, pair_keys, pair_views,
    Counter, Diagnosis, Event, EventView, FailurePair, PairView, SystemStatsSnapshot, Telemetry,
    TelemetryFile, WeightSnapshot,
};
use vstd::prelude::*;

verus! {

/// How many events a full snapshot shows.
pub const SNAPSHOT_EVENTS: usize = 100;

/// How many failures a diagnosis shows.
pub const DIAGNOSIS_EVENTS: usize = 20;

/// A whole number as JSON.
pub open spec fn whole(n: u64) -> JsonView {
    JsonView::Number(JsonNumber::Unsigned(n))
}

/// The fields of an event as JSON.
pub open spec fn meta_data_view(meta: Seq<(Seq<char>, Seq<char>)>) -> Seq<(Seq<char>, JsonView)> {
    meta.map_values(|p: (Seq<char>, Seq<char>)| (p.0, JsonView::Text(p.1)))
}

/// An event as JSON.
pub open spec fn event_data_view(e: EventView) -> JsonView {
    JsonView::Object(
        no_fields().push(("ts"@, JsonView::Text(e.ts))).push(
            ("crate_name"@, JsonView::Text(e.crate_name)),
        ).push(("op"@, JsonView::Text(e.op))).push(("ok"@, JsonView::Bool(e.ok))).push(
            ("detail"@, JsonView::Text(e.detail)),
        ).push(("latency_ms"@, whole(e.latency_ms))).push(
            ("trace_id"@, JsonView::Text(e.trace_id)),
        ).push(("meta"@, JsonView::Object(meta_data_view(e.meta)))),
    )
}

/// An event as JSON.
pub fn event_data(e: &Event) -> (r: Json)
    ensures
        r@ == event_data_view(e@),
{
    let mut meta = ObjectBuilder::new();
    let ghost all = meta_data_view(meta_view(e.meta@));
    let mut i: usize = 0;
    assert(all.take(0) =~= no_fields());
    while i < e.meta.len()
        invariant
            i <= e.meta@.len(),
            all == meta_data_view(meta_view(e.meta@)),
            entries_view(meta.entries@) == all.take(i as int),
        decreases e.meta@.len() - i,
    {
        meta = meta.with(e.meta[i].0.as_str(), Json::text(e.meta[i].1.as_str()));
        i += 1;
        assert(all.take(i as int) =~= all.take(i - 1).push(all[i - 1]));
    }
    assert(all.take(i as int) =~= all);
    ObjectBuilder::new().with("ts", Json::text(e.ts.as_str())).with(
        "crate_name",
        Json::text(e.crate_name.as_str()),
    ).with("op", Json::text(e.op.as_str())).with("ok", Json::Bool(e.ok)).with(
        "detail",
        Json::text(e.detail.as_str()),
    ).with("latency_ms", Json::number(e.latency_ms)).with(
        "trace_id",
        Json::text(e.trace_id.as_str()),
    ).with("meta", meta.done()).done()
}

/// Events as JSON.
pub open spec fn events_data_view(events: Seq<EventView>) -> JsonView {
    JsonView::Array(events.map_values(|e: EventView| event_data_view(e)))
}

/// Events as JSON.
pub fn events_data(events: &Vec<Event>) -> (r: Json)
    ensures
        r@ == events_data_view(event_views(events@)),
{
    let mut out: Vec<Json> = Vec::new();
    let mut i: usize = 0;
    while i < events.len()
        invariant
            i <= events@.len(),
            out@.len() == i,
            forall|k: int| 0 <= k < i ==> (#[trigger] out@[k])@ == event_data_view(events@[k]@),
        decreases events@.len() - i,
    {
        out.push(event_data(&events[i]));
        i += 1;
    }
    assert(items_view(out@) =~= event_views(events@).map_values(
        |e: EventView| event_data_view(e),
    ));
    list(out)
}

/// A failing operation as JSON.
pub open spec fn pair_data_view(p: PairView) -> JsonView {
    JsonView::Object(
        no_fields().push(("key"@, JsonView::Text(p.key))).push(("count"@, whole(p.count))).push(
            ("latest"@, JsonView::Text(p.latest)),
        ),
    )
}

fn pair_data(p: &FailurePair) -> (r: Json)
    ensures
        r@ == pair_data_view(p@),
{
    ObjectBuilder::new().with("key", Json::text(p.key.as_str())).with(
        "count",
        Json::number(p.count),
    ).with("latest", Json::text(p.latest.as_str())).done()
}

/// A diagnosis as JSON.
pub open spec fn diagnosis_data_view(
    total_events: u64,
    total_failures: u64,
    top: Seq<PairView>,
    recent: Seq<EventView>,
) -> JsonView {
    JsonView::Object(
        no_fields().push(("total_events"@, whole(total_events))).push(
            ("total_failures"@, whole(total_failures)),
        ).push(
            ("top_failures"@, JsonView::Array(top.map_values(|p: PairView| pair_data_view(p)))),
        ).push(("recent_failures"@, events_data_view(recent))),
    )
}

/// A diagnosis as JSON.
pub fn diagnosis_data(d: &Diagnosis) -> (r: Json)
    ensures
        r@ == diagnosis_data_view(
            d.total_events,
            d.total_failures,
            pair_views(d.top_failures@),
            event_views(d.recent_failures@),
        ),
{
    let mut top: Vec<Json> = Vec::new();
    let mut i: usize = 0;
    while i < d.top_failures.len()
        invariant
            i <= d.top_failures@.len(),
            top@.len() == i,
            forall|k: int|
                0 <= k < i ==> (#[trigger] top@[k])@ == pair_data_view(d.top_failures@[k]@),
        decreases d.top_failures@.len() - i,
    {
        top.push(pair_data(&d.top_failures[i]));
        i += 1;
    }
    assert(items_view(top@) =~= pair_views(d.top_failures@).map_values(
        |p: PairView| pair_data_view(p),
    ));
    ObjectBuilder::new().with("total_events", Json::number(d.total_events)).with(
        "total_failures",
        Json::number(d.total_failures),
    ).with("top_failures", list(top)).with(
        "recent_failures",
        events_data(&d.recent_failures),
    ).done()
}

/// The counts of one operation as JSON.
pub open spec fn counter_data_view(c: Counter) -> JsonView {
    JsonView::Object(
        no_fields().push(("total"@, whole(c.total))).push(("ok"@, whole(c.ok))).push(
            ("err"@, whole(c.err)),
        ).push(("latency_sum_ms"@, whole(c.latency_sum_ms))).push(
            ("latency_min_ms"@, whole(c.latency_min_ms)),
        ).push(("latency_max_ms"@, whole(c.latency_max_ms))),
    )
}

fn counter_data(c: Counter) -> (r: Json)
    ensures
        r@ == counter_data_view(c),
{
    ObjectBuilder::new().with("total", Json::number(c.total)).with("ok", Json::number(c.ok)).with(
        "err",
        Json::number(c.err),
    ).with("latency_sum_ms", Json::number(c.latency_sum_ms)).with(
        "latency_min_ms",
        Json::number(c.latency_min_ms),
    ).with("latency_max_ms", Json::number(c.latency_max_ms)).done()
}

/// The counters of each operation as JSON, under their keys.
pub open spec fn counters_data_view(counters: Seq<(String, Counter)>) -> JsonView {
    JsonView::Object(
        counters.map_values(|c: (String, Counter)| (c.0@, counter_data_view(c.1))),
    )
}

/// The snapshots of the edge weights as JSON, oldest first.
pub open spec fn weights_data_view(history: Seq<WeightSnapshot>) -> JsonView {
    JsonView::Array(
        history.map_values(
            |s: WeightSnapshot|
                JsonView::Object(
                    no_fields().push(("ts"@, JsonView::Text(s.ts@))).push(
                        ("weights"@, s.weights@),
                    ),
                ),
        ),
    )
}

/// The snapshots of the aggregate counts as JSON, oldest first.
pub open spec fn system_data_view(history: Seq<SystemStatsSnapshot>) -> JsonView {
    JsonView::Array(
        history.map_values(
            |s: SystemStatsSnapshot|
                JsonView::Object(
                    no_fields().push(("ts"@, JsonView::Text(s.ts@))).push(("stats"@, s.stats@)),
                ),
        ),
    )
}

/// `d` is the diagnosis of a recorder as JSON.
pub open spec fn is_diagnosis_data(t: Telemetry, d: JsonView) -> bool {
    exists|top: Seq<PairView>| #[trigger]
        is_ranked(failure_pairs(t.log()), pair_keys(failure_pairs(t.log())), top) && d
            == diagnosis_data_view(
            t.total,
            failures(t.log()) as u64,
            top,
            at_most(failed_latest_first(t.log()), DIAGNOSIS_EVENTS as nat),
        )
}

/// Everything a dashboard needs, with the diagnosis `d`.
pub open spec fn snapshot_data_view(t: Telemetry, d: JsonView) -> JsonView {
    JsonView::Object(
        no_fields().push(("total_events"@, whole(t.total))).push(
            ("events"@, events_data_view(at_most(t.log().reverse(), SNAPSHOT_EVENTS as nat))),
        ).push(("diagnosis"@, d)).push(("counters"@, counters_data_view(t.counters@))).push(
            ("weights_history"@, weights_data_view(t.weights_history@)),
        ).push(("system_history"@, system_data_view(t.system_history@))),
    )
}

impl Telemetry {
    /// The diagnosis as JSON.
    pub fn diagnosis_report(&self) -> (r: Json)
        requires
            self.valid(),
        ensures
            is_diagnosis_data(*self, r@),
    {
        let d = self.diagnose(DIAGNOSIS_EVENTS);
        diagnosis_data(&d)
    }

    /// The counters of each operation as JSON.
    pub fn counters_report(&self) -> (r: Json)
        ensures
            r@ == counters_data_view(self.counters@),
    {
        let mut out = ObjectBuilder::new();
        let ghost all = counters_data_view(self.counters@)->Object_0;
        let mut i: usize = 0;
        assert(all.take(0) =~= no_fields());
        while i < self.counters.len()
            invariant
                i <= self.counters@.len(),
                all == counters_data_view(self.counters@)->Object_0,
                entries_view(out.entries@) == all.take(i as int),
            decreases self.counters@.len() - i,
        {
            out = out.with(self.counters[i].0.as_str(), counter_data(self.counters[i].1));
            i += 1;
            assert(all.take(i as int) =~= all.take(i - 1).push(all[i - 1]));
        }
        assert(all.take(i as int) =~= all);
        out.done()
    }

    /// The kept snapshots of the edge weights, oldest first.
    pub fn weights_history_snapshot(&self) -> (r: Vec<WeightSnapshot>)
        ensures
            r@.len() == self.weights_history@.len(),
            forall|k: int|
                0 <= k < r@.len() ==> (#[trigger] r@[k]).ts@ == self.weights_history@[k].ts@
                    && r@[k].weights@ == self.weights_history@[k].weights@,
    {
        let mut out: Vec<WeightSnapshot> = Vec::new();
        let n: usize = self.weights_history.len();
        let mut i: usize = 0;
        while i < n
            invariant
                n == self.weights_history@.len(),
                i <= n,
                out@.len() == i,
                forall|k: int|
                    0 <= k < i ==> (#[trigger] out@[k]).ts@ == self.weights_history@[k].ts@
                        && out@[k].weights@ == self.weights_history@[k].weights@,
            decreases n - i,
        {
            let s = &self.weights_history[i];
            out.push(WeightSnapshot { ts: s.ts.clone(), weights: s.weights.copy() });
            i += 1;
        }
        out
    }

    /// The kept snapshots of the aggregate counts, oldest first.
    pub fn system_history_snapshot(&self) -> (r: Vec<SystemStatsSnapshot>)
        ensures
            r@.len() == self.system_history@.len(),
            forall|k: int|
                0 <= k < r@.len() ==> (#[trigger] r@[k]).ts@ == self.system_history@[k].ts@
                    && r@[k].stats@ == self.system_history@[k].stats@,
    {
        let mut out: Vec<SystemStatsSnapshot> = Vec::new();
        let n: usize = self.system_history.len();
        let mut i: usize = 0;
        while i < n
            invariant
                n == self.system_history@.len(),
                i <= n,
                out@.len() == i,
                forall|k: int|
                    0 <= k < i ==> (#[trigger] out@[k]).ts@ == self.system_history@[k].ts@
                        && out@[k].stats@ == self.system_history@[k].stats@,
            decreases n - i,
        {
            let s = &self.system_history[i];
            out.push(SystemStatsSnapshot { ts: s.ts.clone(), stats: s.stats.copy() });
            i += 1;
        }
        out
    }

    /// The kept snapshots of the edge weights as JSON.
    pub fn weights_report(&self) -> (r: Json)
        ensures
            r@ == weights_data_view(self.weights_history@),
    {
        let history = self.weights_history_snapshot();
        let mut out: Vec<Json> = Vec::new();
        let ghost all = weights_data_view(self.weights_history@)->Array_0;
        for s in it: history
            invariant
                it.seq() == history@,
                out@.len() == it.index(),
                all == weights_data_view(self.weights_history@)->Array_0,
                history@.len() == self.weights_history@.len(),
                forall|k: int|
                    0 <= k < history@.len() ==> (#[trigger] history@[k]).ts@
                        == self.weights_history@[k].ts@ && history@[k].weights@
                        == self.weights_history@[k].weights@,
                forall|k: int| 0 <= k < out@.len() ==> (#[trigger] out@[k])@ == all[k],
        {
            out.push(
                ObjectBuilder::new().with("ts", Json::text(s.ts.as_str())).with(
                    "weights",
                    s.weights,
                ).done(),
            );
        }
        assert(items_view(out@) =~= all);
        list(out)
    }

    /// The kept snapshots of the aggregate counts as JSON.
    pub fn system_report(&self) -> (r: Json)
        ensures
            r@ == system_data_view(self.system_history@),
    {
        let history = self.system_history_snapshot();
        let mut out: Vec<Json> = Vec::new();
        let ghost all = system_data_view(self.system_history@)->Array_0;
        for s in it: history
            invariant
                it.seq() == history@,
                out@.len() == it.index(),
                all == system_data_view(self.system_history@)->Array_0,
                history@.len() == self.system_history@.len(),
                forall|k: int|
                    0 <= k < history@.len() ==> (#[trigger] history@[k]).ts@
                        == self.system_history@[k].ts@ && history@[k].stats@
                        == self.system_history@[k].stats@,
                forall|k: int| 0 <= k < out@.len() ==> (#[trigger] out@[k])@ == all[k],
        {
            out.push(
                ObjectBuilder::new().with("ts", Json::text(s.ts.as_str())).with(
                    "stats",
                    s.stats,
                ).done(),
            );
        }
        assert(items_view(out@) =~= all);
        list(out)
    }

    /// Everything a dashboard needs.
    pub fn full_snapshot(&self) -> (r: Json)
        requires
            self.valid(),
        ensures
            exists|d: JsonView| #[trigger]
                is_diagnosis_data(*self, d) && r@ == snapshot_data_view(*self, d),
    {
        let events = self.latest(SNAPSHOT_EVENTS);
        let diagnosis = self.diagnosis_report();
        ObjectBuilder::new().with("total_events", Json::number(self.total)).with(
            "events",
            events_data(&events),
        ).with("diagnosis", diagnosis).with("counters", self.counters_report()).with(
            "weights_history",
            self.weights_report(),
        ).with("system_history", self.system_report()).done()
    }
}

/// A day's file as JSON.
pub open spec fn file_data_view(f: TelemetryFile) -> JsonView {
    JsonView::Object(
        no_fields().push(("name"@, JsonView::Text(f.name@))).push(
            ("date"@, JsonView::Text(f.date@)),
        ).push(("size_bytes"@, whole(f.size_bytes))).push(("events"@, whole(f.events as u64))),
    )
}

/// Day files as JSON.
pub fn files_data(files: &Vec<TelemetryFile>) -> (r: Json)
    ensures
        r@ == JsonView::Array(files@.map_values(|f: TelemetryFile| file_data_view(f))),
{
    let mut out: Vec<Json> = Vec::new();
    let mut i: usize = 0;
    while i < files.len()
        invariant
            i <= files@.len(),
            out@.len() == i,
            forall|k: int| 0 <= k < i ==> (#[trigger] out@[k])@ == file_data_view(files@[k]),
        decreases files@.len() - i,
    {
        let f = &files[i];
        out.push(
            ObjectBuilder::new().with("name", Json::text(f.name.as_str())).with(
                "date",
                Json::text(f.date.as_str()),
            ).with("size_bytes", Json::number(f.size_bytes)).with(
                "events",
                Json::number(f.events as u64),
            ).done(),
        );
        i += 1;
    }
    assert(items_view(out@) =~= files@.map_values(|f: TelemetryFile| file_data_view(f)));
    list(out)
}

/// The answer to a request to delete a day's file.
pub fn deleted_data(deleted: bool, date: &str) -> (r: Json)
    ensures
        r@ == JsonView::Object(
            no_fields().push(("deleted"@, JsonView::Bool(deleted))).push(
                ("date"@, JsonView::Text(date@)),
            ),
        ),
{
    ObjectBuilder::new().with("deleted", Json::Bool(deleted)).with("date", Json::text(date)).done()
}

/// Every part of an event stands under its own name.
pub proof fn events_name_their_parts(e: EventView)
    ensures
        field(event_data_view(e), "ts"@) == Some(JsonView::Text(e.ts)),
        field(event_data_view(e), "crate_name"@) == Some(JsonView::Text(e.crate_name)),
        field(event_data_view(e), "op"@) == Some(JsonView::Text(e.op)),
        field(event_data_view(e), "ok"@) == Some(JsonView::Bool(e.ok)),
        field(event_data_view(e), "detail"@) == Some(JsonView::Text(e.detail)),
        field(event_data_view(e), "latency_ms"@) == Some(
            JsonView::Number(JsonNumber::Unsigned(e.latency_ms)),
        ),
        field(event_data_view(e), "trace_id"@) == Some(JsonView::Text(e.trace_id)),
{
    broadcast use lemma_lookup_push;

    reveal_strlit("ts");
    reveal_strlit("crate_name");
    reveal_strlit("op");
    reveal_strlit("ok");
    reveal_strlit("detail");
    reveal_strlit("latency_ms");
    reveal_strlit("trace_id");
    reveal_strlit("meta");
    assert("ts"@.len() == 2 && "ts"@[0] == 't');
    assert("crate_name"@.len() == 10 && "crate_name"@[0] == 'c');
    assert("op"@.len() == 2 && "op"@[0] == 'o' && "op"@[1] == 'p');
    assert("ok"@.len() == 2 && "ok"@[0] == 'o' && "ok"@[1] == 'k');
    assert("detail"@.len() == 6);
    assert("latency_ms"@.len() == 10 && "latency_ms"@[0] == 'l');
    assert("trace_id"@.len() == 8);
    assert("meta"@.len() == 4);
}

/// Every count of an operation stands under its own name.
pub proof fn counters_name_their_counts(c: Counter)
    ensures
        field(counter_data_view(c), "total"@) == Some(
            JsonView::Number(JsonNumber::Unsigned(c.total)),
        ),
        field(counter_data_view(c), "ok"@) == Some(JsonView::Number(JsonNumber::Unsigned(c.ok))),
        field(counter_data_view(c), "err"@) == Some(JsonView::Number(JsonNumber::Unsigned(c.err))),
        field(counter_data_view(c), "latency_sum_ms"@) == Some(
            JsonView::Number(JsonNumber::Unsigned(c.latency_sum_ms)),
        ),
        field(counter_data_view(c), "latency_min_ms"@) == Some(
            JsonView::Number(JsonNumber::Unsigned(c.latency_min_ms)),
        ),
        field(counter_data_view(c), "latency_max_ms"@) == Some(
            JsonView::Number(JsonNumber::Unsigned(c.latency_max_ms)),
        ),
{
    broadcast use lemma_lookup_push;

    reveal_strlit("total");
    reveal_strlit("ok");
    reveal_strlit("err");
    reveal_strlit("latency_sum_ms");
    reveal_strlit("latency_min_ms");
    reveal_strlit("latency_max_ms");
    assert("total"@.len() == 5 && "ok"@.len() == 2 && "err"@.len() == 3);
    assert("latency_sum_ms"@.len() == 14 && "latency_sum_ms"@[8] == 's');
    assert("latency_min_ms"@.len() == 14 && "latency_min_ms"@[9] == 'i');
    assert("latency_max_ms"@.len() == 14 && "latency_max_ms"@[9] == 'a');
    assert("latency_min_ms"@[8] == 'm' && "latency_max_ms"@[8] == 'm');
}

/// A diagnosis names how many events and failures there were, and lists the
/// failing operations and the latest failures in the order they are given.
pub proof fn diagnoses_name_their_parts(
    total_events: u64,
    total_failures: u64,
    top: Seq<PairView>,
    recent: Seq<EventView>,
)
    ensures
        ({
            let d = diagnosis_data_view(total_events, total_failures, top, recent);
            &&& field(d, "total_events"@) == Some(
                JsonView::Number(JsonNumber::Unsigned(total_events)),
            )
            &&& field(d, "total_failures"@) == Some(
                JsonView::Number(JsonNumber::Unsigned(total_failures)),
            )
            &&& field(d, "top_failures"@) == Some(
                JsonView::Array(Seq::new(top.len(), |i: int| pair_data_view(top[i]))),
            )
            &&& field(d, "recent_failures"@) == Some(
                JsonView::Array(Seq::new(recent.len(), |i: int| event_data_view(recent[i]))),
            )
        }),
{
    broadcast use lemma_lookup_push;

    reveal_strlit("total_events");
    reveal_strlit("total_failures");
    reveal_strlit("top_failures");
    reveal_strlit("recent_failures");
    assert("total_events"@.len() == 12 && "total_events"@[2] == 't');
    assert("total_failures"@.len() == 14);
    assert("top_failures"@.len() == 12 && "top_failures"@[2] == 'p');
    assert("recent_failures"@.len() == 15);
    assert(top.map_values(|p: PairView| pair_data_view(p)) =~= Seq::new(
        top.len(),
        |i: int| pair_data_view(top[i]),
    ));
    assert(events_data_view(recent)->Array_0 =~= Seq::new(
        recent.len(),
        |i: int| event_data_view(recent[i]),
    ));
}

/// A snapshot shows the hundred newest events, and every event it counted in its
/// total.
pub proof fn snapshots_show_the_newest(t: Telemetry, d: JsonView)
    ensures
        ({
            let s = snapshot_data_view(t, d);
            &&& field(s, "total_events"@) == Some(JsonView::Number(JsonNumber::Unsigned(t.total)))
            &&& field(s, "diagnosis"@) == Some(d)
            &&& field(s, "counters"@) == Some(counters_data_view(t.counters@))
            &&& field(s, "weights_history"@) == Some(weights_data_view(t.weights_history@))
            &&& field(s, "system_history"@) == Some(system_data_view(t.system_history@))
            &&& field(s, "events"@) matches Some(JsonView::Array(shown)) && shown.len() == (
            if t.log().len() <= 100 {
                t.log().len() as int
            } else {
                100
            }) && forall|i: int|
                0 <= i < shown.len() ==> #[trigger] shown[i] == event_data_view(
                    t.log()[t.log().len() - 1 - i],
                )
        }),
{
    broadcast use lemma_lookup_push;

    reveal_strlit("total_events");
    reveal_strlit("events");
    reveal_strlit("diagnosis");
    reveal_strlit("counters");
    reveal_strlit("weights_history");
    reveal_strlit("system_history");
    assert("total_events"@.len() == 12);
    assert("events"@.len() == 6);
    assert("diagnosis"@.len() == 9);
    assert("counters"@.len() == 8);
    assert("weights_history"@.len() == 15);
    assert("system_history"@.len() == 14);
}

/// A day's file is shown with its name, its date, its size and its count.
pub proof fn files_name_their_parts(f: TelemetryFile)
    ensures
        field(file_data_view(f), "name"@) == Some(JsonView::Text(f.name@)),
        field(file_data_view(f), "date"@) == Some(JsonView::Text(f.date@)),
        field(file_data_view(f), "size_bytes"@) == Some(
            JsonView::Number(JsonNumber::Unsigned(f.size_bytes)),
        ),
        field(file_data_view(f), "events"@) == Some(
            JsonView::Number(JsonNumber::Unsigned(f.events as u64)),
        ),
{
    broadcast use lemma_lookup_push;

    reveal_strlit("name");
    reveal_strlit("date");
    reveal_strlit("size_bytes");
    reveal_strlit("events");
    assert("name"@.len() == 4 && "name"@[0] == 'n');
    assert("date"@.len() == 4 && "date"@[0] == 'd');
    assert("size_bytes"@.len() == 10 && "events"@.len() == 6);
}

} // verus!
