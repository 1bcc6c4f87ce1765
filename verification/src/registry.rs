//! The metrics registry: a process-wide store of counters and latency
//! histograms, keyed by label set, with lazy creation of series and
//! saturating aggregation.
//!
//! Times are carried as whole microseconds so that the registry holds only
//! plain integers; the renderer prints them as fractional seconds.

use vstd::prelude::*;
use crate::labels::{LabelKey, LabelSet};

verus! {

/// Number of finite histogram buckets.
pub const BUCKET_COUNT: usize = 5;

/// The upper bound, in microseconds, of each finite histogram bucket:
/// 5ms, 10ms, 25ms, 50ms and 100ms.
pub open spec fn spec_bucket_bound_micros(b: int) -> u64 {
    if b == 0 {
        5000
    } else if b == 1 {
        10000
    } else if b == 2 {
        25000
    } else if b == 3 {
        50000
    } else {
        100000
    }
}

pub fn bucket_bound_micros(b: usize) -> (r: u64)
    requires
        b < BUCKET_COUNT,
    ensures
        r == spec_bucket_bound_micros(b as int),
{
    if b == 0 {
        5000
    } else if b == 1 {
        10000
    } else if b == 2 {
        25000
    } else if b == 3 {
        50000
    } else {
        100000
    }
}

/// Addition on `u64` that sticks at the maximum instead of wrapping.
pub open spec fn sat_add(a: u64, b: u64) -> u64 {
    if a + b > u64::MAX {
        u64::MAX
    } else {
        (a + b) as u64
    }
}

/// One counter series: a label set and its running total.
pub struct CounterSeries {
    pub labels: LabelSet,
    pub value: u64,
}

pub ghost struct CounterView {
    pub key: LabelKey,
    pub value: u64,
}

impl View for CounterSeries {
    type V = CounterView;

    open spec fn view(&self) -> CounterView {
        CounterView { key: self.labels@, value: self.value }
    }
}

/// One histogram series: a label set, cumulative per-bucket counts
/// (bucket `b` counts the observations at most `spec_bucket_bound_micros(b)`),
/// the sum of all observed values and the total observation count.
pub struct HistogramSeries {
    pub labels: LabelSet,
    pub buckets: Vec<u64>,
    pub sum_micros: u64,
    pub count: u64,
}

pub ghost struct HistogramView {
    pub key: LabelKey,
    pub buckets: Seq<u64>,
    pub sum_micros: u64,
    pub count: u64,
}

impl View for HistogramSeries {
    type V = HistogramView;

    open spec fn view(&self) -> HistogramView {
        HistogramView {
            key: self.labels@,
            buckets: self.buckets@,
            sum_micros: self.sum_micros,
            count: self.count,
        }
    }
}

pub ghost struct RegistryView {
    pub counters: Seq<CounterView>,
    pub histograms: Seq<HistogramView>,
}

/// The registry itself. Series are kept in order of first observation,
/// which makes the rendered snapshot deterministic.
pub struct MetricsRegistry {
    counters: Vec<CounterSeries>,
    histograms: Vec<HistogramSeries>,
}

impl View for MetricsRegistry {
    type V = RegistryView;

    closed spec fn view(&self) -> RegistryView {
        RegistryView {
            counters: self.counters@.map_values(|c: CounterSeries| c@),
            histograms: self.histograms@.map_values(|h: HistogramSeries| h@),
        }
    }
}

pub open spec fn counter_keys(s: Seq<CounterView>) -> Seq<LabelKey> {
    s.map_values(|c: CounterView| c.key)
}

pub open spec fn histogram_keys(s: Seq<HistogramView>) -> Seq<LabelKey> {
    s.map_values(|h: HistogramView| h.key)
}

/// Index of the first occurrence of `k` in `keys`, or `-1` if absent.
pub open spec fn find_key(keys: Seq<LabelKey>, k: LabelKey) -> int
    decreases keys.len(),
{
    if keys.len() == 0 {
        -1
    } else if keys[0] == k {
        0
    } else if find_key(keys.drop_first(), k) == -1 {
        -1
    } else {
        find_key(keys.drop_first(), k) + 1
    }
}

pub proof fn lemma_find_key(keys: Seq<LabelKey>, k: LabelKey)
    ensures
        find_key(keys, k) == -1 ==> forall|j: int| 0 <= j < keys.len() ==> keys[j] != k,
        find_key(keys, k) != -1 ==> {
            &&& 0 <= find_key(keys, k) < keys.len()
            &&& keys[find_key(keys, k)] == k
            &&& forall|j: int| 0 <= j < find_key(keys, k) ==> keys[j] != k
        },
    decreases keys.len(),
{
    if keys.len() > 0 && keys[0] != k {
        let df = keys.drop_first();
        lemma_find_key(df, k);
        if find_key(df, k) == -1 {
            assert(find_key(keys, k) == -1);
            assert forall|j: int| 0 <= j < keys.len() implies keys[j] != k by {
                if j > 0 {
                    assert(df[j - 1] == keys[j]);
                }
            }
        } else {
            let f = find_key(df, k) + 1;
            assert(find_key(keys, k) == f);
            assert(keys[f] == df[f - 1]);
            assert forall|j: int| 0 <= j < f implies keys[j] != k by {
                if j > 0 {
                    assert(df[j - 1] == keys[j]);
                }
            }
        }
    }
}

/// Well-formedness of the registry contents: one series per label key
/// (the exactly-once aggregation target) and a full bucket vector per
/// histogram series.
pub open spec fn view_wf(v: RegistryView) -> bool {
    &&& (forall|i: int, j: int|
        0 <= i < j < v.counters.len() ==> #[trigger] v.counters[i].key != #[trigger] v.counters[j].key)
    &&& (forall|i: int, j: int|
        0 <= i < j < v.histograms.len() ==> #[trigger] v.histograms[i].key
            != #[trigger] v.histograms[j].key)
    &&& (forall|i: int|
        0 <= i < v.histograms.len() ==> (#[trigger] v.histograms[i].buckets).len() == BUCKET_COUNT)
}

/// The counter store after one increment of `delta` against key `k`:
/// the existing series grows (saturating), or a new series is appended.
pub open spec fn counter_step(s: Seq<CounterView>, k: LabelKey, delta: u64) -> Seq<CounterView> {
    let i = find_key(counter_keys(s), k);
    if i == -1 {
        s.push(CounterView { key: k, value: delta })
    } else {
        s.update(i, CounterView { key: k, value: sat_add(s[i].value, delta) })
    }
}

/// One histogram series after observing a value: every bucket whose bound
/// is at least the value grows by one, as do the running sum and count.
pub open spec fn hist_observe(h: HistogramView, micros: u64) -> HistogramView {
    HistogramView {
        key: h.key,
        buckets: Seq::new(
            h.buckets.len(),
            |b: int|
                if spec_bucket_bound_micros(b) >= micros {
                    sat_add(h.buckets[b], 1)
                } else {
                    h.buckets[b]
                },
        ),
        sum_micros: sat_add(h.sum_micros, micros),
        count: sat_add(h.count, 1),
    }
}

/// A series that has observed nothing yet.
pub open spec fn empty_histogram(k: LabelKey) -> HistogramView {
    HistogramView { key: k, buckets: seq![0u64, 0u64, 0u64, 0u64, 0u64], sum_micros: 0, count: 0 }
}

/// The histogram store after one observation of `micros` against key `k`.
pub open spec fn histogram_step(s: Seq<HistogramView>, k: LabelKey, micros: u64) -> Seq<
    HistogramView,
> {
    let i = find_key(histogram_keys(s), k);
    if i == -1 {
        s.push(hist_observe(empty_histogram(k), micros))
    } else {
        s.update(i, hist_observe(s[i], micros))
    }
}

/// The running total of the counter series keyed `k` in a counter store,
/// zero before the series first exists.
pub open spec fn counter_total_in(s: Seq<CounterView>, k: LabelKey) -> u64 {
    let i = find_key(counter_keys(s), k);
    if i == -1 {
        0
    } else {
        s[i].value
    }
}

/// The running total of the counter series keyed `k`, zero before the
/// series first exists.
pub open spec fn counter_total(v: RegistryView, k: LabelKey) -> u64 {
    counter_total_in(v.counters, k)
}

/// The state of the histogram series keyed `k` in a histogram store, empty
/// before the series first exists.
pub open spec fn histogram_state_in(s: Seq<HistogramView>, k: LabelKey) -> HistogramView {
    let i = find_key(histogram_keys(s), k);
    if i == -1 {
        empty_histogram(k)
    } else {
        s[i]
    }
}

/// The state of the histogram series keyed `k`, empty before the series
/// first exists.
pub open spec fn histogram_state(v: RegistryView, k: LabelKey) -> HistogramView {
    histogram_state_in(v.histograms, k)
}

impl MetricsRegistry {
    pub open spec fn wf(&self) -> bool {
        view_wf(self@)
    }

    pub fn counter_count(&self) -> (n: usize)
        ensures
            n == self@.counters.len(),
    {
        self.counters.len()
    }

    pub fn counter_at(&self, i: usize) -> (c: &CounterSeries)
        requires
            i < self@.counters.len(),
        ensures
            c@ == self@.counters[i as int],
    {
        &self.counters[i]
    }

    pub fn histogram_count(&self) -> (n: usize)
        ensures
            n == self@.histograms.len(),
    {
        self.histograms.len()
    }

    pub fn histogram_at(&self, i: usize) -> (h: &HistogramSeries)
        requires
            i < self@.histograms.len(),
        ensures
            h@ == self@.histograms[i as int],
    {
        &self.histograms[i]
    }

    /// A fresh registry with no series.
    pub fn new() -> (r: MetricsRegistry)
        ensures
            r.wf(),
            r@.counters =~= Seq::<CounterView>::empty(),
            r@.histograms =~= Seq::<HistogramView>::empty(),
    {
        MetricsRegistry { counters: Vec::new(), histograms: Vec::new() }
    }

    fn find_counter_index(&self, labels: &LabelSet) -> (r: Option<usize>)
        ensures
            match r {
                Some(i) => i < self@.counters.len() && find_key(counter_keys(self@.counters), labels@)
                    == i as int,
                None => find_key(counter_keys(self@.counters), labels@) == -1,
            },
    {
        let ghost keys = counter_keys(self@.counters);
        let n = self.counters.len();
        let mut i: usize = 0;
        while i < n
            invariant
                n == self.counters.len(),
                i <= n,
                keys == counter_keys(self@.counters),
                forall|j: int| 0 <= j < i ==> keys[j] != labels@,
            decreases n - i,
        {
            if self.counters[i].labels.key_eq(labels) {
                proof {
                    lemma_find_key(keys, labels@);
                    assert(keys[i as int] == labels@);
                }
                return Some(i);
            }
            i += 1;
        }
        proof {
            lemma_find_key(keys, labels@);
            if find_key(keys, labels@) != -1 {
                assert(keys[find_key(keys, labels@)] == labels@);
            }
        }
        None
    }

    fn find_histogram_index(&self, labels: &LabelSet) -> (r: Option<usize>)
        ensures
            match r {
                Some(i) => i < self@.histograms.len() && find_key(
                    histogram_keys(self@.histograms),
                    labels@,
                ) == i as int,
                None => find_key(histogram_keys(self@.histograms), labels@) == -1,
            },
    {
        let ghost keys = histogram_keys(self@.histograms);
        let n = self.histograms.len();
        let mut i: usize = 0;
        while i < n
            invariant
                n == self.histograms.len(),
                i <= n,
                keys == histogram_keys(self@.histograms),
                forall|j: int| 0 <= j < i ==> keys[j] != labels@,
            decreases n - i,
        {
            if self.histograms[i].labels.key_eq(labels) {
                proof {
                    lemma_find_key(keys, labels@);
                    assert(keys[i as int] == labels@);
                }
                return Some(i);
            }
            i += 1;
        }
        proof {
            lemma_find_key(keys, labels@);
            if find_key(keys, labels@) != -1 {
                assert(keys[find_key(keys, labels@)] == labels@);
            }
        }
        None
    }

    /// Lazily creates or updates the counter series for `labels`,
    /// incrementing it by `delta` (saturating).
    pub fn record_counter(&mut self, labels: &LabelSet, delta: u64)
        requires
            old(self).wf(),
        ensures
            final(self).wf(),
            final(self)@.counters == counter_step(old(self)@.counters, labels@, delta),
            final(self)@.histograms == old(self)@.histograms,
    {
        let ghost s0 = self@.counters;
        let ghost k = labels@;
        match self.find_counter_index(labels) {
            Some(i) => {
                let cur = self.counters[i].value;
                self.counters[i].value = cur.saturating_add(delta);
                proof {
                    lemma_find_key(counter_keys(s0), k);
                    assert(counter_keys(s0)[i as int] == k);
                    assert(s0[i as int].key == k);
                    let s1 = self@.counters;
                    let target = s0.update(
                        i as int,
                        CounterView { key: k, value: sat_add(s0[i as int].value, delta) },
                    );
                    assert forall|j: int| 0 <= j < s1.len() implies s1[j] == target[j] by {
                        assert(s1[j] == self.counters@[j]@);
                    }
                    assert(s1 =~= target);
                    assert forall|a: int, b: int| 0 <= a < b < s1.len() implies s1[a].key
                        != s1[b].key by {
                        assert(s1[a].key == s0[a].key);
                        assert(s1[b].key == s0[b].key);
                    }
                    assert(self@.histograms =~= old(self)@.histograms);
                }
            },
            None => {
                self.counters.push(CounterSeries { labels: labels.duplicate(), value: delta });
                proof {
                    lemma_find_key(counter_keys(s0), k);
                    assert(forall|j: int|
                        0 <= j < s0.len() ==> #[trigger] counter_keys(s0)[j] != k);
                    let s1 = self@.counters;
                    assert(s1 =~= s0.push(CounterView { key: k, value: delta }));
                    assert forall|a: int, b: int| 0 <= a < b < s1.len() implies s1[a].key
                        != s1[b].key by {
                        if b < s0.len() {
                            assert(s1[a].key == s0[a].key);
                            assert(s1[b].key == s0[b].key);
                        } else {
                            assert(s1[b].key == k);
                            assert(s1[a].key == s0[a].key);
                            assert(counter_keys(s0)[a] == s0[a].key);
                        }
                    }
                    assert(self@.histograms =~= old(self)@.histograms);
                }
            },
        }
    }

    /// Lazily creates or updates the histogram series for `labels`,
    /// observing a duration of `micros` microseconds.
    pub fn record_histogram(&mut self, labels: &LabelSet, micros: u64)
        requires
            old(self).wf(),
        ensures
            final(self).wf(),
            final(self)@.histograms == histogram_step(old(self)@.histograms, labels@, micros),
            final(self)@.counters == old(self)@.counters,
    {
        let ghost s0 = self@.histograms;
        let ghost k = labels@;
        match self.find_histogram_index(labels) {
            Some(i) => {
                proof {
                    lemma_find_key(histogram_keys(s0), k);
                    assert(histogram_keys(s0)[i as int] == k);
                    assert(s0[i as int].key == k);
                    assert(s0[i as int].buckets.len() == BUCKET_COUNT);
                    assert(self.histograms@[i as int]@ == s0[i as int]);
                }
                let nb = observed_buckets(&self.histograms[i].buckets, micros);
                let nsum = self.histograms[i].sum_micros.saturating_add(micros);
                let ncount = self.histograms[i].count.saturating_add(1);
                self.histograms[i].buckets = nb;
                self.histograms[i].sum_micros = nsum;
                self.histograms[i].count = ncount;
                proof {
                    let s1 = self@.histograms;
                    let target = s0.update(i as int, hist_observe(s0[i as int], micros));
                    assert(nb@ =~= hist_observe(s0[i as int], micros).buckets);
                    assert forall|j: int| 0 <= j < s1.len() implies s1[j] == target[j] by {
                        assert(s1[j] == self.histograms@[j]@);
                    }
                    assert(s1 =~= target);
                    assert forall|a: int, b: int| 0 <= a < b < s1.len() implies s1[a].key
                        != s1[b].key by {
                        assert(s1[a].key == s0[a].key);
                        assert(s1[b].key == s0[b].key);
                    }
                    assert forall|a: int| 0 <= a < s1.len() implies s1[a].buckets.len()
                        == BUCKET_COUNT by {
                        assert(s0[a].buckets.len() == BUCKET_COUNT);
                    }
                    assert(self@.counters =~= old(self)@.counters);
                }
            },
            None => {
                let zeros = zero_buckets();
                let nb = observed_buckets(&zeros, micros);
                self.histograms.push(
                    HistogramSeries {
                        labels: labels.duplicate(),
                        buckets: nb,
                        sum_micros: micros,
                        count: 1,
                    },
                );
                proof {
                    lemma_find_key(histogram_keys(s0), k);
                    assert(forall|j: int|
                        0 <= j < s0.len() ==> #[trigger] histogram_keys(s0)[j] != k);
                    assert(zeros@ =~= empty_histogram(k).buckets);
                    assert(nb@ =~= hist_observe(empty_histogram(k), micros).buckets);
                    let s1 = self@.histograms;
                    let target = s0.push(hist_observe(empty_histogram(k), micros));
                    assert forall|j: int| 0 <= j < s1.len() implies s1[j] == target[j] by {
                        assert(s1[j] == self.histograms@[j]@);
                        if j == s0.len() {
                            assert(s1[j].key == k);
                            assert(s1[j].buckets == nb@);
                            assert(sat_add(0u64, micros) == micros);
                            assert(sat_add(0u64, 1u64) == 1u64);
                        }
                    }
                    assert(s1 =~= target);
                    assert forall|a: int, b: int| 0 <= a < b < s1.len() implies s1[a].key
                        != s1[b].key by {
                        if b < s0.len() {
                            assert(s1[a].key == s0[a].key);
                            assert(s1[b].key == s0[b].key);
                        } else {
                            assert(s1[b].key == k);
                            assert(s1[a].key == s0[a].key);
                            assert(histogram_keys(s0)[a] == s0[a].key);
                        }
                    }
                    assert forall|a: int| 0 <= a < s1.len() implies s1[a].buckets.len()
                        == BUCKET_COUNT by {
                        if a < s0.len() {
                            assert(s0[a].buckets.len() == BUCKET_COUNT);
                        }
                    }
                    assert(self@.counters =~= old(self)@.counters);
                }
            },
        }
    }
}

/// A full vector of empty buckets.
fn zero_buckets() -> (r: Vec<u64>)
    ensures
        r@ =~= seq![0u64, 0u64, 0u64, 0u64, 0u64],
{
    let mut v: Vec<u64> = Vec::new();
    v.push(0);
    v.push(0);
    v.push(0);
    v.push(0);
    v.push(0);
    v
}

/// The cumulative bucket counts after one more observation of `micros`.
fn observed_buckets(buckets: &Vec<u64>, micros: u64) -> (r: Vec<u64>)
    requires
        buckets@.len() == BUCKET_COUNT,
    ensures
        r@ =~= Seq::new(
            buckets@.len(),
            |b: int|
                if spec_bucket_bound_micros(b) >= micros {
                    sat_add(buckets@[b], 1)
                } else {
                    buckets@[b]
                },
        ),
{
    let mut r: Vec<u64> = Vec::new();
    let mut b: usize = 0;
    while b < BUCKET_COUNT
        invariant
            b <= BUCKET_COUNT,
            buckets@.len() == BUCKET_COUNT,
            r@.len() == b,
            forall|bb: int|
                0 <= bb < b ==> r@[bb] == (if spec_bucket_bound_micros(bb) >= micros {
                    sat_add(buckets@[bb], 1)
                } else {
                    buckets@[bb]
                }),
        decreases BUCKET_COUNT - b,
    {
        let cur = buckets[b];
        if bucket_bound_micros(b) >= micros {
            r.push(cur.saturating_add(1));
        } else {
            r.push(cur);
        }
        b += 1;
    }
    r
}

} // verus!
