//! Pipeline and dispatch decisions: request building, response
//! interpretation, and the callback outcome of a completed exchange.

use naamio::address::BaseAddress;
use naamio::errors::NaamioError;
use naamio::pipeline::{
    build_request, interpret_response, parse_content_length, parse_response_head,
    status_is_success, Method,
};
use naamio::service::{completion_action, log_level_from, plan_registration, Completion, LogLevel};
use naamio::text::Text;
use naamio::types::RegistrationData;

fn text(s: &str) -> Text {
    Text::decode_borrowed(s.as_bytes()).expect("valid UTF-8")
}

#[test]
fn method_names() {
    assert_eq!(Method::Get.name(), "GET");
    assert_eq!(Method::Post.name(), "POST");
    assert_eq!(Method::Put.name(), "PUT");
    assert_eq!(Method::Delete.name(), "DELETE");
}

#[test]
fn status_classes() {
    assert!(status_is_success(200));
    assert!(status_is_success(204));
    assert!(status_is_success(299));
    assert!(!status_is_success(199));
    assert!(!status_is_success(300));
    assert!(!status_is_success(404));
    assert!(!status_is_success(503));
}

#[test]
fn build_request_sets_exact_headers_and_body() {
    let data = RegistrationData {
        name: text("search"),
        rel_url: text("/search"),
        endpoint: text("http://localhost:9100/callback"),
    };
    let target = text("http://localhost:8000/register");
    let req = build_request(Method::Post, &target, Some(&data), Some(&text("secret")));
    assert_eq!(req.method, Method::Post);
    assert_eq!(req.target.encode_for_export(), b"http://localhost:8000/register");
    let body = req.body.as_ref().expect("payload present");
    assert_eq!(
        body.as_slice(),
        &br#"{"name":"search","rel_url":"/search","endpoint":"http://localhost:9100/callback"}"#[..]
    );
    assert_eq!(req.headers.len(), 3);
    assert_eq!(req.headers[0].name, b"Authorization");
    assert_eq!(req.headers[0].value, b"Bearer secret");
    assert_eq!(req.headers[1].name, b"Content-Type");
    assert_eq!(req.headers[1].value, b"application/json");
    assert_eq!(req.headers[2].name, b"Content-Length");
    assert_eq!(req.headers[2].value, body.len().to_string().as_bytes());
}

#[test]
fn build_request_without_payload_or_token() {
    let req = build_request(Method::Get, &text("http://h/x"), None, None);
    assert!(req.body.is_none());
    assert!(req.headers.is_empty());
}

#[test]
fn interpret_success_with_token() {
    let r = interpret_response(200, br#"{"token":"abc123"}"#).expect("decodable success");
    assert_eq!(r.token, Some(text("abc123")));
}

#[test]
fn interpret_success_without_token() {
    let r = interpret_response(200, br#"{"token":null}"#).expect("decodable success");
    assert_eq!(r.token, None);
}

#[test]
fn interpret_success_with_undecodable_body() {
    let e = interpret_response(200, b"not json").unwrap_err();
    assert!(matches!(e, NaamioError::Serialization(_)));
}

#[test]
fn interpret_success_with_empty_body_fails_decoding() {
    // structural decoding of zero bytes is not a valid answer object
    let e = interpret_response(204, b"").unwrap_err();
    assert!(matches!(e, NaamioError::Serialization(_)));
}

#[test]
fn interpret_remote_failure_carries_status_and_body() {
    let e = interpret_response(503, br#"{"error":"overloaded"}"#).unwrap_err();
    match e {
        NaamioError::Remote(status, body) => {
            assert_eq!(status, 503);
            assert_eq!(body, br#"{"error":"overloaded"}"#);
        },
        other => panic!("expected Remote, got {:?}", other),
    }
}

#[test]
fn completion_invokes_exactly_on_token() {
    let c = completion_action(200, br#"{"token":"abc123"}"#);
    assert_eq!(c, Completion::Invoke(text("abc123")));
}

#[test]
fn completion_logs_when_no_token() {
    assert_eq!(completion_action(200, br#"{"token":null}"#), Completion::NoToken);
}

#[test]
fn completion_fails_on_remote_error() {
    match completion_action(503, br#"{"error":"overloaded"}"#) {
        Completion::Failed(NaamioError::Remote(503, _)) => {},
        other => panic!("expected Failed(Remote(503, _)), got {:?}", other),
    }
}

#[test]
fn plan_registration_builds_the_request() {
    let base = BaseAddress::new();
    let req = plan_registration(
        &base,
        b"search",
        b"/search",
        b"http://localhost:9100/callback",
        b"/register",
        b"secret",
    )
    .expect("valid submission");
    assert_eq!(req.method, Method::Post);
    assert_eq!(req.target.encode_for_export(), b"http://localhost:8000/register");
    assert_eq!(
        req.body.as_deref(),
        Some(&br#"{"name":"search","rel_url":"/search","endpoint":"http://localhost:9100/callback"}"#[..])
    );
    assert_eq!(req.headers[0].value, b"Bearer secret");
}

#[test]
fn plan_registration_with_absolute_override() {
    let base = BaseAddress::new();
    let req = plan_registration(
        &base,
        b"search",
        b"/search",
        b"http://localhost:9100/callback",
        b"http://override.host:1234/register",
        b"t",
    )
    .expect("valid submission");
    assert_eq!(req.target.encode_for_export(), b"http://override.host:1234/register");
}

#[test]
fn plan_registration_aborts_on_invalid_name_bytes() {
    // a name view that is not UTF-8 must abort before any request exists
    let base = BaseAddress::new();
    let e = plan_registration(
        &base,
        &[0x73, 0xff, 0x61],
        b"/search",
        b"http://localhost:9100/callback",
        b"/register",
        b"t",
    )
    .unwrap_err();
    assert!(matches!(e, NaamioError::Serialization(_)));
}

#[test]
fn plan_registration_aborts_on_malformed_target() {
    let base = BaseAddress::new();
    let e = plan_registration(
        &base,
        b"search",
        b"/search",
        b"http://localhost:9100/callback",
        b"http://bad target",
        b"t",
    )
    .unwrap_err();
    assert!(matches!(e, NaamioError::AddressSyntax(_)));
}

#[test]
fn registration_decisions_end_to_end() {
    // the decision half of a full registration: plan the request, then
    // interpret the stub server's answer
    let base = BaseAddress::new();
    let req = plan_registration(
        &base,
        b"search",
        b"/search",
        b"http://localhost:9100/callback",
        b"/register",
        b"secret",
    )
    .expect("valid submission");
    assert_eq!(req.target.encode_for_export(), b"http://localhost:8000/register");
    assert_eq!(
        completion_action(200, br#"{"token":"abc123"}"#),
        Completion::Invoke(text("abc123"))
    );
    match completion_action(503, br#"{"error":"overloaded"}"#) {
        Completion::Failed(NaamioError::Remote(status, body)) => {
            assert_eq!(status, 503);
            assert_eq!(body, br#"{"error":"overloaded"}"#);
        },
        other => panic!("expected Failed(Remote(..)), got {:?}", other),
    }
}

#[test]
fn parse_content_length_reads_digit_strings() {
    assert_eq!(parse_content_length(b"0"), Some(0));
    assert_eq!(parse_content_length(b"82"), Some(82));
    assert_eq!(parse_content_length(b"18446744073709551615"), Some(u64::MAX));
    assert_eq!(parse_content_length(b"18446744073709551616"), None);
    assert_eq!(parse_content_length(b""), None);
    assert_eq!(parse_content_length(b"12x"), None);
    assert_eq!(parse_content_length(b"-1"), None);
}

#[test]
fn parse_response_head_reads_status_and_headers() {
    let head = b"HTTP/1.1 200 OK\r\nContent-Type: application/json\r\nContent-Length: 18\r\n";
    let (status, headers) = parse_response_head(head).expect("well-formed head");
    assert_eq!(status, 200);
    assert_eq!(headers.len(), 2);
    assert_eq!(headers[0].name, b"Content-Type");
    assert_eq!(headers[0].value, b"application/json");
    assert_eq!(headers[1].name, b"Content-Length");
    assert_eq!(headers[1].value, b"18");
}

#[test]
fn parse_response_head_tolerates_bare_line_feeds_and_no_reason() {
    let (status, headers) = parse_response_head(b"HTTP/1.0 503\nRetry-After:5\n").expect("head");
    assert_eq!(status, 503);
    assert_eq!(headers.len(), 1);
    assert_eq!(headers[0].name, b"Retry-After");
    assert_eq!(headers[0].value, b"5");
}

#[test]
fn parse_response_head_rejects_malformed_status_lines() {
    assert!(parse_response_head(b"").is_none());
    assert!(parse_response_head(b"HTTP/1.1\r\n").is_none());
    assert!(parse_response_head(b"HTTP/1.1 abc OK\r\n").is_none());
    assert!(parse_response_head(b"HTTP/1.1  200 OK\r\n").is_none());
    assert!(parse_response_head(b"HTTP/1.1 99999 OK\r\n").is_none());
}

#[test]
fn log_level_mapping() {
    assert_eq!(log_level_from(0), Some(LogLevel::Off));
    assert_eq!(log_level_from(1), Some(LogLevel::Error));
    assert_eq!(log_level_from(2), Some(LogLevel::Warn));
    assert_eq!(log_level_from(3), Some(LogLevel::Info));
    assert_eq!(log_level_from(4), Some(LogLevel::Debug));
    assert_eq!(log_level_from(5), Some(LogLevel::Trace));
    assert_eq!(log_level_from(6), None);
    assert_eq!(log_level_from(255), None);
}

#[test]
fn error_messages_compose_kind_and_detail() {
    let e = NaamioError::Transport("connection refused".to_string());
    assert_eq!(e.message().encode_for_export(), b"transport error: connection refused");
    let e = NaamioError::Io("unexpected eof".to_string());
    assert_eq!(e.message().encode_for_export(), b"I/O error: unexpected eof");
    let e = NaamioError::Remote(503, br#"{"error":"overloaded"}"#.to_vec());
    assert_eq!(
        e.message().encode_for_export(),
        &br#"remote error: status 503, body {"error":"overloaded"}"#[..]
    );
    // a remote body that is not text is still loggable
    let e = NaamioError::Remote(500, vec![0xff]);
    assert_eq!(e.message().encode_for_export(), "remote error: status 500, body \u{fffd}".as_bytes());
}

#[test]
fn error_kind_names() {
    assert_eq!(NaamioError::Io(String::new()).kind_name(), "I/O error");
    assert_eq!(NaamioError::Transport(String::new()).kind_name(), "transport error");
    assert_eq!(NaamioError::Serialization(String::new()).kind_name(), "serialization error");
    assert_eq!(NaamioError::AddressSyntax(String::new()).kind_name(), "address syntax error");
    assert_eq!(NaamioError::Remote(500, Vec::new()).kind_name(), "remote error");
    assert_eq!(NaamioError::Other(String::new()).kind_name(), "unknown error");
}
