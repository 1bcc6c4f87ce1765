//! The request interceptor: resolves the label set of a completed request
//! and records exactly one counter increment and one histogram observation
//! against it, leaving the scrape endpoint itself uninstrumented.

use vstd::prelude::*;
use crate::labels::{LabelKey, LabelSet};
use crate::registry::{counter_step, histogram_step, MetricsRegistry, RegistryView};

verus! {

/// The path label of the scrape endpoint, which is excluded from
/// instrumentation.
pub open spec fn metrics_route() -> Seq<char> {
    "/metrics"@
}

/// The registry after one completed request has been observed: unchanged
/// for the scrape endpoint, otherwise one counter increment and one
/// histogram observation against the request's label key.
pub open spec fn spec_record(
    v: RegistryView,
    method: Seq<char>,
    path: Seq<char>,
    status: u16,
    elapsed_micros: u64,
) -> RegistryView {
    if path == metrics_route() {
        v
    } else {
        let k = LabelKey { method, path, status };
        RegistryView {
            counters: counter_step(v.counters, k, 1),
            histograms: histogram_step(v.histograms, k, elapsed_micros),
        }
    }
}

/// The path label of a request: the matched route template when the router
/// provides one, otherwise the literal request path.
pub fn resolve_path_label(matched: Option<String>, literal: String) -> (r: String)
    ensures
        r@ == (match matched {
            Some(m) => m@,
            None => literal@,
        }),
{
    match matched {
        Some(m) => m,
        None => literal,
    }
}

fn is_metrics_path(path: &str) -> (r: bool)
    ensures
        r == (path@ == metrics_route()),
{
    let a = path.to_owned();
    let b = "/metrics".to_owned();
    a == b
}

impl MetricsRegistry {
    /// Records the completion of one request, labelled by method, resolved
    /// path and status, with its handling time in microseconds.
    pub fn observe_request(&mut self, method: String, path: String, status: u16, elapsed_micros: u64)
        requires
            old(self).wf(),
        ensures
            final(self).wf(),
            final(self)@ == spec_record(old(self)@, method@, path@, status, elapsed_micros),
    {
        if is_metrics_path(path.as_str()) {
            return ;
        }
        let labels = LabelSet::new(method, path, status);
        self.record_counter(&labels, 1);
        self.record_histogram(&labels, elapsed_micros);
    }
}

} // verus!
