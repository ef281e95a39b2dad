//! Tests for header parsing, method normalization, shot classification
//! and the per-shot request plan.

use cannon::config::Args;
use cannon::engine::prepare_request;
use cannon::headers::{build_request_headers, is_content_type_key, normalize_method, parse_header};
use cannon::shot::{
    classify_response, classify_transport_failure, error_message, needs_body_check, ShotError,
    TransportFailure,
};

fn bytes(s: &str) -> Vec<u8> {
    s.as_bytes().to_vec()
}

fn sample_args() -> Args {
    Args {
        url: String::from("http://localhost:8080/api"),
        count: 1,
        workers: 10,
        output: None,
        rps: None,
        body: None,
        method: bytes("GET"),
        headers: Vec::new(),
        timeout: 5000,
        expect: None,
        ramp_up_secs: 0,
    }
}

#[test]
fn header_line_splits_on_first_colon_and_trims() {
    let parsed = parse_header(&bytes("Content-Type: application/json")).unwrap();
    assert_eq!(parsed.0, bytes("Content-Type"));
    assert_eq!(parsed.1, bytes("application/json"));

    let parsed = parse_header(&bytes("  X-Token :  a:b:c  ")).unwrap();
    assert_eq!(parsed.0, bytes("X-Token"));
    assert_eq!(parsed.1, bytes("a:b:c"));
}

#[test]
fn header_line_without_colon_is_skipped() {
    assert!(parse_header(&bytes("NoColonHere")).is_none());
    let plan = build_request_headers(&vec![bytes("bad header"), bytes("Accept: */*")], false);
    assert_eq!(plan.entries.len(), 1);
    assert_eq!(plan.entries[0].0, bytes("Accept"));
}

#[test]
fn content_type_key_is_recognized_in_any_ascii_case() {
    assert!(is_content_type_key(&bytes("Content-Type")));
    assert!(is_content_type_key(&bytes("content-type")));
    assert!(is_content_type_key(&bytes("CONTENT-TYPE")));
    assert!(!is_content_type_key(&bytes("Content-Length")));
}

#[test]
fn body_without_explicit_content_type_defaults_to_json() {
    let plan = build_request_headers(&vec![bytes("Accept: */*")], true);
    assert!(!plan.has_content_type);
    assert_eq!(plan.entries.len(), 2);
    assert_eq!(plan.entries[1].0, bytes("Content-Type"));
    assert_eq!(plan.entries[1].1, bytes("application/json"));
}

#[test]
fn explicit_content_type_suppresses_the_json_default() {
    let plan = build_request_headers(&vec![bytes("content-TYPE: text/plain")], true);
    assert!(plan.has_content_type);
    assert_eq!(plan.entries.len(), 1);
    assert_eq!(plan.entries[0].1, bytes("text/plain"));
}

#[test]
fn method_is_uppercased_and_invalid_tokens_fall_back_to_get() {
    assert_eq!(normalize_method(&bytes("get")), bytes("GET"));
    assert_eq!(normalize_method(&bytes("patch")), bytes("PATCH"));
    assert_eq!(normalize_method(&bytes("DELETE")), bytes("DELETE"));
    assert_eq!(normalize_method(&bytes("")), bytes("GET"));
    assert_eq!(normalize_method(&bytes("bad method")), bytes("GET"));
    assert_eq!(normalize_method(&"pätch".as_bytes().to_vec()), bytes("GET"));
}

#[test]
fn assertion_on_body_substring_decides_success() {
    let expect = Some(bytes("world"));
    let body = Some(bytes("hello world"));
    let r = classify_response(200, &expect, &body, 1500);
    assert!(r.success);
    assert!(r.assertion_success);
    assert_eq!(r.status_code, Some(200));
    assert_eq!(r.error, None);
    assert_eq!(r.duration_us, 1500);

    let expect = Some(bytes("xyz"));
    let r = classify_response(200, &expect, &body, 1500);
    assert!(!r.success);
    assert!(!r.assertion_success);
    assert_eq!(r.error, Some(ShotError::AssertionFailed));
    assert_eq!(error_message(ShotError::AssertionFailed), "Assertion Failed");
}

#[test]
fn body_read_failure_is_its_own_error() {
    let expect = Some(bytes("anything"));
    let r = classify_response(204, &expect, &None, 10);
    assert!(!r.success);
    assert_eq!(r.error, Some(ShotError::BodyReadError));
    assert_eq!(error_message(ShotError::BodyReadError), "Body Read Error");
}

#[test]
fn non_2xx_status_fails_without_error_classification() {
    let r = classify_response(404, &None, &None, 10);
    assert!(!r.success);
    assert_eq!(r.status_code, Some(404));
    assert_eq!(r.error, None);
    assert!(r.assertion_success);
}

#[test]
fn plain_2xx_without_assertion_succeeds() {
    let r = classify_response(201, &None, &None, 10);
    assert!(r.success);
    assert_eq!(r.status_code, Some(201));
    assert_eq!(r.error, None);
}

#[test]
fn body_is_only_fetched_for_2xx_with_assertion() {
    assert!(needs_body_check(200, &Some(bytes("x"))));
    assert!(!needs_body_check(200, &None));
    assert!(!needs_body_check(500, &Some(bytes("x"))));
}

#[test]
fn transport_failures_classify_by_kind() {
    let r = classify_transport_failure(TransportFailure::Timeout, 5_000_000);
    assert!(!r.success);
    assert_eq!(r.status_code, None);
    assert_eq!(r.error, Some(ShotError::Timeout));
    assert_eq!(error_message(ShotError::Timeout), "Timeout");

    let r = classify_transport_failure(TransportFailure::Connect, 120);
    assert_eq!(r.error, Some(ShotError::ConnectionError));
    assert_eq!(error_message(ShotError::ConnectionError), "Connection Error");

    let r = classify_transport_failure(TransportFailure::Other, 120);
    assert_eq!(r.error, Some(ShotError::NetworkError));
    assert_eq!(error_message(ShotError::NetworkError), "Network Error");
}

#[test]
fn request_plan_combines_method_headers_and_body() {
    let mut args = sample_args();
    args.method = bytes("post");
    args.headers = vec![bytes("Accept: */*"), bytes("malformed")];
    args.body = Some(bytes("{\"id\": {{number}}}"));
    let plan = prepare_request(&args);
    assert_eq!(plan.method, bytes("POST"));
    assert_eq!(plan.headers.len(), 2);
    assert_eq!(plan.headers[0].0, bytes("Accept"));
    assert_eq!(plan.headers[1].0, bytes("Content-Type"));
    assert_eq!(plan.headers[1].1, bytes("application/json"));
    let body = String::from_utf8(plan.body.unwrap()).unwrap();
    assert!(body.starts_with("{\"id\": "));
    assert!(body.ends_with('}'));
    let n: u32 = body[7..body.len() - 1].parse().unwrap();
    assert!((10..9999).contains(&n));
}

#[test]
fn request_plan_without_body_has_none_and_no_default_header() {
    let args = sample_args();
    let plan = prepare_request(&args);
    assert_eq!(plan.method, bytes("GET"));
    assert!(plan.headers.is_empty());
    assert!(plan.body.is_none());
}
