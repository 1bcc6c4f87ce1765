//! Rendering the registry as a point-in-time snapshot in the plaintext
//! exposition format: a type header per metric, then one line per counter
//! series and one block (buckets, sum, count) per histogram series, in
//! order of first observation.

use vstd::prelude::*;
use vstd::string::StringExecFns;
use crate::decimal::{dec_digits, micros_to_seconds_dec, seconds_digits, u64_to_dec};
use crate::labels::{LabelKey, LabelSet};
use crate::registry::{CounterSeries, CounterView, HistogramSeries, HistogramView, MetricsRegistry,
    RegistryView, BUCKET_COUNT};

verus! {

/// The label block of a series, with the status code in decimal.
pub open spec fn label_text(k: LabelKey) -> Seq<char> {
    "{method=\""@ + k.method + "\",path=\""@ + k.path + "\",status=\""@ + dec_digits(
        k.status as nat,
    ) + "\"}"@
}

/// The label block of one histogram bucket line, with its `le` bound.
pub open spec fn label_text_le(k: LabelKey, le: Seq<char>) -> Seq<char> {
    "{method=\""@ + k.method + "\",path=\""@ + k.path + "\",status=\""@ + dec_digits(
        k.status as nat,
    ) + "\",le=\""@ + le + "\"}"@
}

/// The `le` bound of each finite bucket, in seconds.
pub open spec fn bucket_le_text(b: int) -> Seq<char> {
    if b == 0 {
        "0.005"@
    } else if b == 1 {
        "0.01"@
    } else if b == 2 {
        "0.025"@
    } else if b == 3 {
        "0.05"@
    } else {
        "0.1"@
    }
}

pub open spec fn counter_line(c: CounterView) -> Seq<char> {
    "http_requests_total"@ + label_text(c.key) + " "@ + dec_digits(c.value as nat) + "\n"@
}

pub open spec fn counter_lines(s: Seq<CounterView>) -> Seq<char>
    decreases s.len(),
{
    if s.len() == 0 {
        Seq::empty()
    } else {
        counter_lines(s.drop_last()) + counter_line(s.last())
    }
}

pub open spec fn bucket_line(k: LabelKey, le: Seq<char>, n: u64) -> Seq<char> {
    "http_request_duration_seconds_bucket"@ + label_text_le(k, le) + " "@ + dec_digits(n as nat)
        + "\n"@
}

/// The block of one histogram series: the five finite buckets, the
/// unbounded bucket (which always equals the count), the sum in seconds
/// and the count.
pub open spec fn histogram_text(h: HistogramView) -> Seq<char> {
    bucket_line(h.key, bucket_le_text(0), h.buckets[0]) + bucket_line(
        h.key,
        bucket_le_text(1),
        h.buckets[1],
    ) + bucket_line(h.key, bucket_le_text(2), h.buckets[2]) + bucket_line(
        h.key,
        bucket_le_text(3),
        h.buckets[3],
    ) + bucket_line(h.key, bucket_le_text(4), h.buckets[4]) + bucket_line(h.key, "+Inf"@, h.count)
        + "http_request_duration_seconds_sum"@ + label_text(h.key) + " "@ + seconds_digits(
        h.sum_micros as nat,
    ) + "\n"@ + "http_request_duration_seconds_count"@ + label_text(h.key) + " "@ + dec_digits(
        h.count as nat,
    ) + "\n"@
}

pub open spec fn histogram_texts(s: Seq<HistogramView>) -> Seq<char>
    decreases s.len(),
{
    if s.len() == 0 {
        Seq::empty()
    } else {
        histogram_texts(s.drop_last()) + histogram_text(s.last())
    }
}

/// The whole snapshot: for each metric that has at least one series, a
/// type header followed by every series in order of first observation.
pub open spec fn rendered(v: RegistryView) -> Seq<char> {
    (if v.counters.len() == 0 {
        Seq::<char>::empty()
    } else {
        "# TYPE http_requests_total counter\n"@ + counter_lines(v.counters)
    }) + (if v.histograms.len() == 0 {
        Seq::<char>::empty()
    } else {
        "# TYPE http_request_duration_seconds histogram\n"@ + histogram_texts(v.histograms)
    })
}

/// `sub` stands in `s` at offset `off`.
pub open spec fn text_at(s: Seq<char>, off: int, sub: Seq<char>) -> bool {
    0 <= off && off + sub.len() <= s.len() && s.subrange(off, off + sub.len()) == sub
}

/// `sub` stands somewhere in `s`.
pub open spec fn contains_text(s: Seq<char>, sub: Seq<char>) -> bool {
    exists|off: int| text_at(s, off, sub)
}

fn push_label_text(out: &mut String, labels: &LabelSet)
    ensures
        final(out)@ == old(out)@ + label_text(labels@),
{
    out.append("{method=\"");
    out.append(labels.method.as_str());
    out.append("\",path=\"");
    out.append(labels.path.as_str());
    out.append("\",status=\"");
    let st = u64_to_dec(labels.status as u64);
    out.append(st.as_str());
    out.append("\"}");
    proof {
        assert(out@ =~= old(out)@ + label_text(labels@));
    }
}

fn push_label_text_le(out: &mut String, labels: &LabelSet, le: &str)
    ensures
        final(out)@ == old(out)@ + label_text_le(labels@, le@),
{
    out.append("{method=\"");
    out.append(labels.method.as_str());
    out.append("\",path=\"");
    out.append(labels.path.as_str());
    out.append("\",status=\"");
    let st = u64_to_dec(labels.status as u64);
    out.append(st.as_str());
    out.append("\",le=\"");
    out.append(le);
    out.append("\"}");
    proof {
        assert(out@ =~= old(out)@ + label_text_le(labels@, le@));
    }
}

fn bucket_le_str(b: usize) -> (r: &'static str)
    requires
        b < BUCKET_COUNT,
    ensures
        r@ == bucket_le_text(b as int),
{
    if b == 0 {
        "0.005"
    } else if b == 1 {
        "0.01"
    } else if b == 2 {
        "0.025"
    } else if b == 3 {
        "0.05"
    } else {
        "0.1"
    }
}

fn push_counter_line(out: &mut String, c: &CounterSeries)
    ensures
        final(out)@ == old(out)@ + counter_line(c@),
{
    out.append("http_requests_total");
    push_label_text(out, &c.labels);
    out.append(" ");
    let v = u64_to_dec(c.value);
    out.append(v.as_str());
    out.append("\n");
    proof {
        assert(out@ =~= old(out)@ + counter_line(c@));
    }
}

fn push_bucket_line(out: &mut String, labels: &LabelSet, le: &'static str, n: u64)
    ensures
        final(out)@ == old(out)@ + bucket_line(labels@, le@, n),
{
    out.append("http_request_duration_seconds_bucket");
    push_label_text_le(out, labels, le);
    out.append(" ");
    let v = u64_to_dec(n);
    out.append(v.as_str());
    out.append("\n");
    proof {
        assert(out@ =~= old(out)@ + bucket_line(labels@, le@, n));
    }
}

#[verifier::rlimit(50)]
fn push_histogram_text(out: &mut String, h: &HistogramSeries)
    requires
        h.buckets@.len() == BUCKET_COUNT,
    ensures
        final(out)@ == old(out)@ + histogram_text(h@),
{
    push_bucket_line(out, &h.labels, bucket_le_str(0), h.buckets[0]);
    push_bucket_line(out, &h.labels, bucket_le_str(1), h.buckets[1]);
    push_bucket_line(out, &h.labels, bucket_le_str(2), h.buckets[2]);
    push_bucket_line(out, &h.labels, bucket_le_str(3), h.buckets[3]);
    push_bucket_line(out, &h.labels, bucket_le_str(4), h.buckets[4]);
    push_bucket_line(out, &h.labels, "+Inf", h.count);
    proof {
        assert(out@ =~= old(out)@ + bucket_line(h@.key, bucket_le_text(0), h@.buckets[0])
            + bucket_line(h@.key, bucket_le_text(1), h@.buckets[1]) + bucket_line(
            h@.key,
            bucket_le_text(2),
            h@.buckets[2],
        ) + bucket_line(h@.key, bucket_le_text(3), h@.buckets[3]) + bucket_line(
            h@.key,
            bucket_le_text(4),
            h@.buckets[4],
        ) + bucket_line(h@.key, "+Inf"@, h@.count));
    }
    out.append("http_request_duration_seconds_sum");
    push_label_text(out, &h.labels);
    out.append(" ");
    let sec = micros_to_seconds_dec(h.sum_micros);
    out.append(sec.as_str());
    out.append("\n");
    out.append("http_request_duration_seconds_count");
    push_label_text(out, &h.labels);
    out.append(" ");
    let cnt = u64_to_dec(h.count);
    out.append(cnt.as_str());
    out.append("\n");
    proof {
        assert(out@ =~= old(out)@ + histogram_text(h@));
    }
}

/// Renders the current state of every registered series as one plaintext
/// snapshot.
#[verifier::rlimit(100)]
pub fn render(reg: &MetricsRegistry) -> (r: String)
    requires
        reg.wf(),
    ensures
        r@ == rendered(reg@),
{
    let mut out = String::new();
    let nc = reg.counter_count();
    if nc > 0 {
        out.append("# TYPE http_requests_total counter\n");
        let mut i: usize = 0;
        while i < nc
            invariant
                nc == reg@.counters.len(),
                i <= nc,
                out@ == "# TYPE http_requests_total counter\n"@ + counter_lines(
                    reg@.counters.take(i as int),
                ),
            decreases nc - i,
        {
            push_counter_line(&mut out, reg.counter_at(i));
            proof {
                assert(reg@.counters.take(i as int + 1).drop_last() =~= reg@.counters.take(
                    i as int,
                ));
                assert(reg@.counters.take(i as int + 1).last() == reg@.counters[i as int]);
            }
            i += 1;
        }
        proof {
            assert(reg@.counters.take(nc as int) =~= reg@.counters);
        }
    }
    let ghost counter_part = out@;
    let nh = reg.histogram_count();
    if nh > 0 {
        out.append("# TYPE http_request_duration_seconds histogram\n");
        let mut i: usize = 0;
        while i < nh
            invariant
                nh == reg@.histograms.len(),
                i <= nh,
                reg.wf(),
                out@ == counter_part + "# TYPE http_request_duration_seconds histogram\n"@
                    + histogram_texts(reg@.histograms.take(i as int)),
            decreases nh - i,
        {
            let h = reg.histogram_at(i);
            proof {
                assert(reg@.histograms[i as int].buckets.len() == BUCKET_COUNT);
            }
            push_histogram_text(&mut out, h);
            proof {
                assert(reg@.histograms.take(i as int + 1).drop_last() =~= reg@.histograms.take(
                    i as int,
                ));
                assert(reg@.histograms.take(i as int + 1).last() == reg@.histograms[i as int]);
            }
            i += 1;
        }
        proof {
            assert(reg@.histograms.take(nh as int) =~= reg@.histograms);
        }
    }
    proof {
        assert(out@ =~= rendered(reg@));
    }
    out
}

} // verus!
