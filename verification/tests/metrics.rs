use http_metrics::interceptor::resolve_path_label;
use http_metrics::labels::LabelSet;
use http_metrics::registry::MetricsRegistry;
use http_metrics::render::render;

fn observe(reg: &mut MetricsRegistry, method: &str, path: &str, status: u16, micros: u64) {
    reg.observe_request(String::from(method), String::from(path), status, micros);
}

#[test]
fn empty_registry_renders_nothing() {
    let reg = MetricsRegistry::new();
    assert_eq!(render(&reg), "");
}

#[test]
fn one_request_full_snapshot() {
    let mut reg = MetricsRegistry::new();
    observe(&mut reg, "GET", "/", 200, 3000);
    let expected = "\
# TYPE http_requests_total counter\n\
http_requests_total{method=\"GET\",path=\"/\",status=\"200\"} 1\n\
# TYPE http_request_duration_seconds histogram\n\
http_request_duration_seconds_bucket{method=\"GET\",path=\"/\",status=\"200\",le=\"0.005\"} 1\n\
http_request_duration_seconds_bucket{method=\"GET\",path=\"/\",status=\"200\",le=\"0.01\"} 1\n\
http_request_duration_seconds_bucket{method=\"GET\",path=\"/\",status=\"200\",le=\"0.025\"} 1\n\
http_request_duration_seconds_bucket{method=\"GET\",path=\"/\",status=\"200\",le=\"0.05\"} 1\n\
http_request_duration_seconds_bucket{method=\"GET\",path=\"/\",status=\"200\",le=\"0.1\"} 1\n\
http_request_duration_seconds_bucket{method=\"GET\",path=\"/\",status=\"200\",le=\"+Inf\"} 1\n\
http_request_duration_seconds_sum{method=\"GET\",path=\"/\",status=\"200\"} 0.003000\n\
http_request_duration_seconds_count{method=\"GET\",path=\"/\",status=\"200\"} 1\n";
    assert_eq!(render(&reg), expected);
}

#[test]
fn counter_counts_every_request() {
    let mut reg = MetricsRegistry::new();
    let n: usize = 5;
    for _ in 0..n {
        observe(&mut reg, "GET", "/", 200, 1000);
    }
    let out = render(&reg);
    assert!(out.contains("http_requests_total{method=\"GET\",path=\"/\",status=\"200\"} 5\n"));
    assert!(!out.contains("} 4\n"));
}

#[test]
fn histogram_buckets_cumulative() {
    let mut reg = MetricsRegistry::new();
    // 30ms: slower than the 5ms, 10ms and 25ms bounds, within 50ms and 100ms.
    observe(&mut reg, "GET", "/", 200, 30000);
    let out = render(&reg);
    assert!(out.contains("le=\"0.005\"} 0\n"));
    assert!(out.contains("le=\"0.01\"} 0\n"));
    assert!(out.contains("le=\"0.025\"} 0\n"));
    assert!(out.contains("le=\"0.05\"} 1\n"));
    assert!(out.contains("le=\"0.1\"} 1\n"));
    assert!(out.contains("le=\"+Inf\"} 1\n"));
    assert!(out.contains("http_request_duration_seconds_sum{method=\"GET\",path=\"/\",status=\"200\"} 0.030000\n"));
    assert!(out.contains("http_request_duration_seconds_count{method=\"GET\",path=\"/\",status=\"200\"} 1\n"));
}

#[test]
fn histogram_buckets_update_per_observation() {
    let mut reg = MetricsRegistry::new();
    observe(&mut reg, "GET", "/", 200, 3000);
    observe(&mut reg, "GET", "/", 200, 30000);
    let out = render(&reg);
    assert!(out.contains("le=\"0.005\"} 1\n"));
    assert!(out.contains("le=\"0.01\"} 1\n"));
    assert!(out.contains("le=\"0.025\"} 1\n"));
    assert!(out.contains("le=\"0.05\"} 2\n"));
    assert!(out.contains("le=\"0.1\"} 2\n"));
    assert!(out.contains("le=\"+Inf\"} 2\n"));
    assert!(out.contains("http_request_duration_seconds_sum{method=\"GET\",path=\"/\",status=\"200\"} 0.033000\n"));
}

#[test]
fn scrape_endpoint_not_instrumented() {
    let mut reg = MetricsRegistry::new();
    observe(&mut reg, "GET", "/metrics", 200, 1000);
    assert_eq!(render(&reg), "");
    observe(&mut reg, "GET", "/", 200, 1000);
    observe(&mut reg, "GET", "/metrics", 200, 1000);
    let out = render(&reg);
    assert!(!out.contains("/metrics"));
    assert!(out.contains("http_requests_total{method=\"GET\",path=\"/\",status=\"200\"} 1\n"));
}

#[test]
fn distinct_routes_distinct_series() {
    let mut reg = MetricsRegistry::new();
    observe(&mut reg, "GET", "/", 200, 1000);
    observe(&mut reg, "GET", "/delay/{milliseconds}", 200, 1000);
    observe(&mut reg, "GET", "/", 200, 1000);
    let out = render(&reg);
    assert!(out.contains("http_requests_total{method=\"GET\",path=\"/\",status=\"200\"} 2\n"));
    assert!(out.contains(
        "http_requests_total{method=\"GET\",path=\"/delay/{milliseconds}\",status=\"200\"} 1\n"
    ));
}

#[test]
fn distinct_status_distinct_series() {
    let mut reg = MetricsRegistry::new();
    observe(&mut reg, "GET", "/delay/{milliseconds}", 200, 1000);
    observe(&mut reg, "GET", "/delay/{milliseconds}", 400, 1000);
    let out = render(&reg);
    assert!(out.contains(
        "http_requests_total{method=\"GET\",path=\"/delay/{milliseconds}\",status=\"200\"} 1\n"
    ));
    assert!(out.contains(
        "http_requests_total{method=\"GET\",path=\"/delay/{milliseconds}\",status=\"400\"} 1\n"
    ));
}

#[test]
fn resolve_path_prefers_template() {
    let template = String::from("/delay/{milliseconds}");
    let literal = String::from("/delay/250");
    assert_eq!(resolve_path_label(Some(template), literal), "/delay/{milliseconds}");
    assert_eq!(resolve_path_label(None, String::from("/delay/250")), "/delay/250");
}

#[test]
fn label_sets_compare_by_key() {
    let a = LabelSet::new(String::from("GET"), String::from("/"), 200);
    let b = LabelSet::new(String::from("GET"), String::from("/"), 200);
    let c = LabelSet::new(String::from("GET"), String::from("/"), 404);
    assert!(a.key_eq(&b));
    assert!(!a.key_eq(&c));
    let d = a.duplicate();
    assert!(a.key_eq(&d));
}
