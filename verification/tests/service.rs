use http_metrics::decimal::{micros_to_seconds_dec, u64_to_dec};
use http_metrics::handlers::{delay_body, delay_error_body, delay_response, greeting_body,
    greeting_response, parse_delay_millis, DelayError};

#[test]
fn greeting_is_fixed() {
    assert_eq!(greeting_body(), "<h1>Hello, World!</h1>");
    assert_eq!(greeting_response(), (200, "<h1>Hello, World!</h1>"));
}

#[test]
fn decimal_rendering_exact() {
    assert_eq!(u64_to_dec(0), "0");
    assert_eq!(u64_to_dec(7), "7");
    assert_eq!(u64_to_dec(250), "250");
    assert_eq!(u64_to_dec(30000), "30000");
    assert_eq!(u64_to_dec(u64::MAX), "18446744073709551615");
}

#[test]
fn seconds_rendering_exact() {
    assert_eq!(micros_to_seconds_dec(0), "0.000000");
    assert_eq!(micros_to_seconds_dec(5000), "0.005000");
    assert_eq!(micros_to_seconds_dec(1234567), "1.234567");
    assert_eq!(micros_to_seconds_dec(100000), "0.100000");
    assert_eq!(micros_to_seconds_dec(2000001), "2.000001");
}

#[test]
fn parse_accepts_plain_decimals() {
    assert_eq!(parse_delay_millis(b"0"), Ok(0));
    assert_eq!(parse_delay_millis(b"250"), Ok(250));
    assert_eq!(parse_delay_millis(b"30000"), Ok(30000));
    assert_eq!(parse_delay_millis(b"007"), Ok(7));
}

#[test]
fn parse_rejects_malformed() {
    assert_eq!(parse_delay_millis(b""), Err(DelayError::Malformed));
    assert_eq!(parse_delay_millis(b"-5"), Err(DelayError::Malformed));
    assert_eq!(parse_delay_millis(b"12a"), Err(DelayError::Malformed));
    assert_eq!(parse_delay_millis(b" 12"), Err(DelayError::Malformed));
    assert_eq!(parse_delay_millis(b"1.5"), Err(DelayError::Malformed));
}

#[test]
fn parse_rejects_out_of_range() {
    assert_eq!(parse_delay_millis(b"30001"), Err(DelayError::OutOfRange));
    assert_eq!(parse_delay_millis(b"99999999999999999999"), Err(DelayError::OutOfRange));
}

#[test]
fn delay_body_echoes_value() {
    assert_eq!(delay_body(250), "<p>Delayed for <em>250</em> milliseconds</p>");
    assert_eq!(delay_body(0), "<p>Delayed for <em>0</em> milliseconds</p>");
}

#[test]
fn delay_error_bodies() {
    assert_eq!(delay_error_body(&DelayError::Malformed), "<p>invalid delay parameter</p>");
    assert_eq!(delay_error_body(&DelayError::OutOfRange), "<p>delay parameter out of range</p>");
}

#[test]
fn delay_response_accepts_valid() {
    let (d, status, body) = delay_response(b"1500");
    assert_eq!(d, Some(1500));
    assert_eq!(status, 200);
    assert_eq!(body, "<p>Delayed for <em>1500</em> milliseconds</p>");
}

#[test]
fn delay_response_rejects_invalid() {
    let (d, status, body) = delay_response(b"abc");
    assert_eq!(d, None);
    assert_eq!(status, 400);
    assert_eq!(body, "<p>invalid delay parameter</p>");

    let (d, status, body) = delay_response(b"30001");
    assert_eq!(d, None);
    assert_eq!(status, 400);
    assert_eq!(body, "<p>delay parameter out of range</p>");
}
