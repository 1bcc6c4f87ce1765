//! Global guarantees of the metrics layer, stated over the recording
//! semantics and proved once and for all: exact request counting, frame
//! independence of distinct series, consistent histogram updates, and the
//! exclusion of the scrape endpoint.

use vstd::prelude::*;
use crate::interceptor::{metrics_route, spec_record};
use crate::labels::LabelKey;
use crate::render::{contains_text, counter_line, counter_lines, rendered, text_at};
use crate::registry::{counter_keys, counter_step, counter_total, counter_total_in,
    empty_histogram, find_key, hist_observe, histogram_keys, histogram_state, histogram_state_in,
    histogram_step, lemma_find_key, sat_add, spec_bucket_bound_micros, CounterView, HistogramView,
    RegistryView};

verus! {

/// One observed request: its label values and its handling time.
pub ghost struct RequestEvent {
    pub method: Seq<char>,
    pub path: Seq<char>,
    pub status: u16,
    pub elapsed_micros: u64,
}

/// The label key under which an event is aggregated.
pub open spec fn event_key(e: RequestEvent) -> LabelKey {
    LabelKey { method: e.method, path: e.path, status: e.status }
}

/// The registry after a whole sequence of requests has been observed, in
/// order.
pub open spec fn record_all(v: RegistryView, events: Seq<RequestEvent>) -> RegistryView
    decreases events.len(),
{
    if events.len() == 0 {
        v
    } else {
        let e = events.last();
        spec_record(
            record_all(v, events.drop_last()),
            e.method,
            e.path,
            e.status,
            e.elapsed_micros,
        )
    }
}

proof fn lemma_find_key_push(keys: Seq<LabelKey>, k: LabelKey, k2: LabelKey)
    requires
        find_key(keys, k) == -1,
    ensures
        find_key(keys.push(k), k) == keys.len(),
        k2 != k ==> find_key(keys.push(k), k2) == find_key(keys, k2),
{
    let keys1 = keys.push(k);
    lemma_find_key(keys, k);
    lemma_find_key(keys1, k);
    assert(keys1[keys.len() as int] == k);
    if find_key(keys1, k) < keys.len() {
        assert(keys1[find_key(keys1, k)] == keys[find_key(keys1, k)]);
    }
    if k2 != k {
        lemma_find_key(keys, k2);
        lemma_find_key(keys1, k2);
        let f0 = find_key(keys, k2);
        let f1 = find_key(keys1, k2);
        if f0 == -1 {
            if f1 != -1 {
                if f1 < keys.len() {
                    assert(keys1[f1] == keys[f1]);
                }
                assert(false);
            }
        } else {
            assert(keys1[f0] == keys[f0]);
            if f1 == -1 {
                assert(keys1[f0] != k2);
                assert(false);
            }
            if f1 < f0 {
                assert(keys1[f1] == keys[f1]);
                assert(false);
            }
            if f1 > f0 {
                assert(keys1[f0] != k2);
                assert(false);
            }
        }
    }
}

proof fn lemma_counter_step_totals(s: Seq<CounterView>, k: LabelKey, delta: u64, other: LabelKey)
    ensures
        counter_total_in(counter_step(s, k, delta), k) == sat_add(counter_total_in(s, k), delta),
        other != k ==> counter_total_in(counter_step(s, k, delta), other) == counter_total_in(
            s,
            other,
        ),
{
    let keys = counter_keys(s);
    let i = find_key(keys, k);
    let s1 = counter_step(s, k, delta);
    let keys1 = counter_keys(s1);
    lemma_find_key(keys, k);
    if i == -1 {
        assert(keys1 =~= keys.push(k));
        lemma_find_key_push(keys, k, other);
        assert(find_key(keys1, k) == keys.len());
        assert(s1[keys.len() as int].value == delta);
        assert(sat_add(0u64, delta) == delta);
        if other != k {
            let f0 = find_key(keys, other);
            lemma_find_key(keys, other);
            if f0 != -1 {
                assert(s1[f0] == s[f0]);
            }
        }
    } else {
        assert(keys[i] == k);
        assert forall|j: int| 0 <= j < keys1.len() implies keys1[j] == keys[j] by {
            assert(s1[j].key == s[j].key);
        }
        assert(keys1 =~= keys);
        assert(find_key(keys1, k) == i);
        assert(s1[i].value == sat_add(s[i].value, delta));
        if other != k {
            let f0 = find_key(keys, other);
            lemma_find_key(keys, other);
            if f0 != -1 {
                assert(keys[f0] == other);
                assert(f0 != i);
                assert(s1[f0] == s[f0]);
            }
        }
    }
}

proof fn lemma_histogram_step_states(
    s: Seq<HistogramView>,
    k: LabelKey,
    micros: u64,
    other: LabelKey,
)
    ensures
        histogram_state_in(histogram_step(s, k, micros), k) == hist_observe(
            histogram_state_in(s, k),
            micros,
        ),
        other != k ==> histogram_state_in(histogram_step(s, k, micros), other)
            == histogram_state_in(s, other),
{
    let keys = histogram_keys(s);
    let i = find_key(keys, k);
    let s1 = histogram_step(s, k, micros);
    let keys1 = histogram_keys(s1);
    lemma_find_key(keys, k);
    if i == -1 {
        assert(keys1 =~= keys.push(k));
        lemma_find_key_push(keys, k, other);
        assert(find_key(keys1, k) == keys.len());
        assert(s1[keys.len() as int] == hist_observe(empty_histogram(k), micros));
        if other != k {
            let f0 = find_key(keys, other);
            lemma_find_key(keys, other);
            if f0 != -1 {
                assert(s1[f0] == s[f0]);
            }
        }
    } else {
        assert(keys[i] == k);
        assert forall|j: int| 0 <= j < keys1.len() implies keys1[j] == keys[j] by {
            assert(s1[j].key == s[j].key);
        }
        assert(keys1 =~= keys);
        assert(find_key(keys1, k) == i);
        assert(s1[i] == hist_observe(s[i], micros));
        if other != k {
            let f0 = find_key(keys, other);
            lemma_find_key(keys, other);
            if f0 != -1 {
                assert(keys[f0] == other);
                assert(f0 != i);
                assert(s1[f0] == s[f0]);
            }
        }
    }
}

/// Law: a request for the scrape endpoint is never instrumented; it leaves
/// the registry exactly as it was.
pub proof fn lemma_scrape_not_instrumented(
    v: RegistryView,
    method: Seq<char>,
    status: u16,
    elapsed_micros: u64,
)
    ensures
        spec_record(v, method, metrics_route(), status, elapsed_micros) == v,
{
}

/// Law: observing one request on an instrumented route adds exactly one to
/// the counter of its own series (saturating at the top of `u64`).
pub proof fn lemma_request_counts_once(
    v: RegistryView,
    method: Seq<char>,
    path: Seq<char>,
    status: u16,
    elapsed_micros: u64,
)
    requires
        path != metrics_route(),
    ensures
        counter_total(
            spec_record(v, method, path, status, elapsed_micros),
            LabelKey { method, path, status },
        ) == sat_add(counter_total(v, LabelKey { method, path, status }), 1),
{
    let k = LabelKey { method, path, status };
    lemma_counter_step_totals(v.counters, k, 1, k);
}

/// Law: observing a request leaves every series other than its own — any
/// different method, path or status — exactly as it was.
pub proof fn lemma_other_series_unchanged(
    v: RegistryView,
    method: Seq<char>,
    path: Seq<char>,
    status: u16,
    elapsed_micros: u64,
    other: LabelKey,
)
    requires
        other != (LabelKey { method, path, status }),
    ensures
        counter_total(spec_record(v, method, path, status, elapsed_micros), other)
            == counter_total(v, other),
        histogram_state(spec_record(v, method, path, status, elapsed_micros), other)
            == histogram_state(v, other),
{
    if path != metrics_route() {
        let k = LabelKey { method, path, status };
        lemma_counter_step_totals(v.counters, k, 1, other);
        lemma_histogram_step_states(v.histograms, k, elapsed_micros, other);
    }
}

/// Law: starting from any registry state, a run of requests that all carry
/// the same instrumented label set leaves that counter at exactly its old
/// total plus the number of requests, as long as the total fits in `u64` —
/// no observation is ever lost or double counted.
pub proof fn lemma_counter_counts_all_requests(
    v: RegistryView,
    events: Seq<RequestEvent>,
    k: LabelKey,
)
    requires
        forall|i: int| 0 <= i < events.len() ==> event_key(#[trigger] events[i]) == k,
        forall|i: int| 0 <= i < events.len() ==> (#[trigger] events[i]).path != metrics_route(),
        counter_total(v, k) + events.len() <= u64::MAX,
    ensures
        counter_total(record_all(v, events), k) == counter_total(v, k) + events.len(),
    decreases events.len(),
{
    if events.len() > 0 {
        let init = events.drop_last();
        let e = events.last();
        assert(forall|i: int| 0 <= i < init.len() ==> init[i] == events[i]);
        lemma_counter_counts_all_requests(v, init, k);
        let pre = record_all(v, init);
        assert(event_key(e) == k);
        lemma_request_counts_once(pre, e.method, e.path, e.status, e.elapsed_micros);
    }
}

/// Law: one observed request updates its own histogram series
/// consistently: every bucket whose bound is at least the observed time
/// grows by exactly one, every other bucket is unchanged, and the running
/// sum and count grow by the observed time and by one (all saturating).
pub proof fn lemma_histogram_updated_consistently(
    v: RegistryView,
    method: Seq<char>,
    path: Seq<char>,
    status: u16,
    elapsed_micros: u64,
)
    requires
        path != metrics_route(),
    ensures
        ({
            let k = LabelKey { method, path, status };
            let h0 = histogram_state(v, k);
            let h1 = histogram_state(spec_record(v, method, path, status, elapsed_micros), k);
            &&& h1.buckets.len() == h0.buckets.len()
            &&& (forall|b: int|
                0 <= b < h0.buckets.len() && spec_bucket_bound_micros(b) >= elapsed_micros
                    ==> #[trigger] h1.buckets[b] == sat_add(h0.buckets[b], 1))
            &&& (forall|b: int|
                0 <= b < h0.buckets.len() && spec_bucket_bound_micros(b) < elapsed_micros
                    ==> #[trigger] h1.buckets[b] == h0.buckets[b])
            &&& h1.sum_micros == sat_add(h0.sum_micros, elapsed_micros)
            &&& h1.count == sat_add(h0.count, 1)
        }),
{
    let k = LabelKey { method, path, status };
    lemma_histogram_step_states(v.histograms, k, elapsed_micros, k);
}

/// The number of events in `events` that are aggregated under key `k`:
/// those carrying exactly its labels, on an instrumented route.
pub open spec fn matching_count(events: Seq<RequestEvent>, k: LabelKey) -> nat
    decreases events.len(),
{
    if events.len() == 0 {
        0
    } else {
        matching_count(events.drop_last(), k) + (if event_key(events.last()) == k
            && events.last().path != metrics_route() {
            1nat
        } else {
            0nat
        })
    }
}

/// Law: however requests with different label sets interleave, every
/// counter ends at its old total plus exactly the number of requests that
/// carried its key — no update is lost, none is misattributed.
pub proof fn lemma_no_lost_updates(v: RegistryView, events: Seq<RequestEvent>, k: LabelKey)
    requires
        counter_total(v, k) + matching_count(events, k) <= u64::MAX,
    ensures
        counter_total(record_all(v, events), k) == counter_total(v, k) + matching_count(
            events,
            k,
        ),
    decreases events.len(),
{
    if events.len() > 0 {
        let init = events.drop_last();
        let e = events.last();
        lemma_no_lost_updates(v, init, k);
        let pre = record_all(v, init);
        if e.path == metrics_route() {
        } else if event_key(e) == k {
            lemma_request_counts_once(pre, e.method, e.path, e.status, e.elapsed_micros);
        } else {
            lemma_other_series_unchanged(pre, e.method, e.path, e.status, e.elapsed_micros, k);
        }
    }
}

proof fn lemma_text_at_after_prefix(a: Seq<char>, b: Seq<char>, sub: Seq<char>, off: int)
    requires
        text_at(b, off, sub),
    ensures
        text_at(a + b, a.len() + off, sub),
{
    assert((a + b).subrange(a.len() + off, a.len() + off + sub.len()) =~= b.subrange(
        off,
        off + sub.len(),
    ));
}

proof fn lemma_text_at_before_suffix(a: Seq<char>, b: Seq<char>, sub: Seq<char>, off: int)
    requires
        text_at(a, off, sub),
    ensures
        text_at(a + b, off, sub),
{
    assert((a + b).subrange(off, off + sub.len()) =~= a.subrange(off, off + sub.len()));
}

proof fn lemma_counter_line_in_lines(s: Seq<CounterView>, i: int)
    requires
        0 <= i < s.len(),
    ensures
        contains_text(counter_lines(s), counter_line(s[i])),
    decreases s.len(),
{
    let a = counter_lines(s.drop_last());
    let b = counter_line(s.last());
    if i == s.len() - 1 {
        assert(b.subrange(0, b.len() as int) =~= b);
        assert(text_at(b, 0, b));
        lemma_text_at_after_prefix(a, b, b, 0);
        assert(text_at(counter_lines(s), a.len() as int, b));
    } else {
        lemma_counter_line_in_lines(s.drop_last(), i);
        assert(s.drop_last()[i] == s[i]);
        let off = choose|off: int| text_at(a, off, counter_line(s[i]));
        lemma_text_at_before_suffix(a, b, counter_line(s[i]), off);
    }
}

/// Law: whenever a counter series exists, the rendered snapshot contains
/// its exact exposition line, current total included.
pub proof fn lemma_rendered_contains_counter_line(v: RegistryView, k: LabelKey)
    requires
        find_key(counter_keys(v.counters), k) != -1,
    ensures
        contains_text(
            rendered(v),
            counter_line(CounterView { key: k, value: counter_total(v, k) }),
        ),
{
    lemma_find_key(counter_keys(v.counters), k);
    let i = find_key(counter_keys(v.counters), k);
    assert(counter_keys(v.counters)[i] == k);
    assert(v.counters[i].key == k);
    assert(v.counters[i] == CounterView { key: k, value: counter_total(v, k) });
    lemma_counter_line_in_lines(v.counters, i);
    let sub = counter_line(v.counters[i]);
    let header = "# TYPE http_requests_total counter\n"@;
    let cl = counter_lines(v.counters);
    let off = choose|off: int| text_at(cl, off, sub);
    lemma_text_at_after_prefix(header, cl, sub, off);
    let tail = if v.histograms.len() == 0 {
        Seq::<char>::empty()
    } else {
        "# TYPE http_request_duration_seconds histogram\n"@ + crate::render::histogram_texts(
            v.histograms,
        )
    };
    lemma_text_at_before_suffix(header + cl, tail, sub, header.len() + off);
    assert(rendered(v) == (header + cl) + tail);
}

/// Law: after at least one request carrying an instrumented label set, the
/// rendered snapshot contains that counter's exposition line with the
/// exact number of requests added to its old total — the textual form of
/// exact counting.
pub proof fn lemma_snapshot_counts_requests(
    v: RegistryView,
    events: Seq<RequestEvent>,
    k: LabelKey,
)
    requires
        events.len() >= 1,
        forall|i: int| 0 <= i < events.len() ==> event_key(#[trigger] events[i]) == k,
        forall|i: int| 0 <= i < events.len() ==> (#[trigger] events[i]).path != metrics_route(),
        counter_total(v, k) + events.len() <= u64::MAX,
    ensures
        contains_text(
            rendered(record_all(v, events)),
            counter_line(
                CounterView { key: k, value: (counter_total(v, k) + events.len()) as u64 },
            ),
        ),
{
    lemma_counter_counts_all_requests(v, events, k);
    let after = record_all(v, events);
    lemma_find_key(counter_keys(after.counters), k);
    assert(counter_total(after, k) >= 1);
    assert(find_key(counter_keys(after.counters), k) != -1);
    lemma_rendered_contains_counter_line(after, k);
}

/// Law: requests with distinct label sets feed distinct series, never a
/// merged one: after one request each under two different keys, each
/// counter stands at its own old total plus one.
pub proof fn lemma_distinct_series_never_merged(
    v: RegistryView,
    e1: RequestEvent,
    e2: RequestEvent,
)
    requires
        e1.path != metrics_route(),
        e2.path != metrics_route(),
        event_key(e1) != event_key(e2),
    ensures
        ({
            let after = record_all(v, seq![e1, e2]);
            &&& counter_total(after, event_key(e1)) == sat_add(counter_total(v, event_key(e1)), 1)
            &&& counter_total(after, event_key(e2)) == sat_add(counter_total(v, event_key(e2)), 1)
        }),
{
    let events = seq![e1, e2];
    assert(events.drop_last() =~= seq![e1]);
    assert(seq![e1].drop_last() =~= Seq::<RequestEvent>::empty());
    assert(record_all(v, Seq::<RequestEvent>::empty()) == v);
    let mid = spec_record(v, e1.method, e1.path, e1.status, e1.elapsed_micros);
    assert(record_all(v, seq![e1]) == mid);
    let after = spec_record(mid, e2.method, e2.path, e2.status, e2.elapsed_micros);
    assert(record_all(v, events) == after);
    lemma_request_counts_once(v, e1.method, e1.path, e1.status, e1.elapsed_micros);
    lemma_other_series_unchanged(
        mid,
        e2.method,
        e2.path,
        e2.status,
        e2.elapsed_micros,
        event_key(e1),
    );
    lemma_request_counts_once(mid, e2.method, e2.path, e2.status, e2.elapsed_micros);
    lemma_other_series_unchanged(
        v,
        e1.method,
        e1.path,
        e1.status,
        e1.elapsed_micros,
        event_key(e2),
    );
}

} // verus!
