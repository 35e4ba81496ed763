//! JSON framing: exact wire bytes, the round trip, and response decoding.

use naamio::json::{decode_registration, decode_response, encode_registration};
use naamio::text::Text;
use naamio::types::RegistrationData;

fn text(s: &str) -> Text {
    Text::decode_borrowed(s.as_bytes()).expect("valid UTF-8")
}

fn sample() -> RegistrationData {
    RegistrationData {
        name: text("search"),
        rel_url: text("/search"),
        endpoint: text("http://localhost:9100/callback"),
    }
}

#[test]
fn encode_emits_canonical_bytes() {
    let bytes = encode_registration(&sample());
    assert_eq!(
        bytes,
        br#"{"name":"search","rel_url":"/search","endpoint":"http://localhost:9100/callback"}"#
    );
}

#[test]
fn encode_escapes_quote_backslash_and_controls() {
    let d = RegistrationData {
        name: text("a\"b\\c\nd"),
        rel_url: text("/x"),
        endpoint: text("http://h"),
    };
    let bytes = encode_registration(&d);
    let expected =
        b"{\"name\":\"a\\\"b\\\\c\\u000ad\",\"rel_url\":\"/x\",\"endpoint\":\"http://h\"}";
    assert_eq!(bytes, expected);
}

#[test]
fn encoded_form_parses_under_serde_json() {
    let d = RegistrationData {
        name: text("a\"b\\c\nd caf\u{e9}"),
        rel_url: text("/search"),
        endpoint: text("http://localhost:9100/callback"),
    };
    let bytes = encode_registration(&d);
    let v: serde_json::Value = serde_json::from_slice(&bytes).expect("well-formed JSON");
    assert_eq!(v["name"], "a\"b\\c\nd caf\u{e9}");
    assert_eq!(v["rel_url"], "/search");
    assert_eq!(v["endpoint"], "http://localhost:9100/callback");
}

#[test]
fn registration_round_trip_is_identity() {
    let d = sample();
    let decoded = decode_registration(&encode_registration(&d)).expect("round trip");
    assert_eq!(decoded, d);
}

#[test]
fn registration_round_trip_with_escapes() {
    let d = RegistrationData {
        name: text("a\"b\\c\u{1}d caf\u{e9}"),
        rel_url: text("/a b"),
        endpoint: text("http://h/\u{1f389}"),
    };
    let decoded = decode_registration(&encode_registration(&d)).expect("round trip");
    assert_eq!(decoded, d);
}

#[test]
fn decode_registration_accepts_whitespace() {
    let raw = b"{ \"name\" : \"n\" , \"rel_url\" : \"/r\" , \"endpoint\" : \"e\" } ";
    let d = decode_registration(raw).expect("whitespace is tolerated");
    assert_eq!(d.name, text("n"));
    assert_eq!(d.rel_url, text("/r"));
    assert_eq!(d.endpoint, text("e"));
}

#[test]
fn decode_registration_rejects_wrong_order() {
    assert!(decode_registration(br#"{"rel_url":"/r","name":"n","endpoint":"e"}"#).is_none());
}

#[test]
fn decode_registration_rejects_trailing_garbage() {
    assert!(
        decode_registration(br#"{"name":"n","rel_url":"/r","endpoint":"e"}x"#).is_none()
    );
}

#[test]
fn decode_response_reads_token() {
    let resp = decode_response(br#"{"token":"abc123"}"#).expect("valid answer");
    assert_eq!(resp.token, Some(text("abc123")));
}

#[test]
fn decode_response_reads_null_token() {
    let resp = decode_response(br#"{"token":null}"#).expect("valid answer");
    assert_eq!(resp.token, None);
}

#[test]
fn decode_response_reads_empty_object() {
    let resp = decode_response(b"{}").expect("valid answer");
    assert_eq!(resp.token, None);
}

#[test]
fn decode_response_accepts_whitespace() {
    let resp = decode_response(b" { \"token\" : \"t\" } ").expect("valid answer");
    assert_eq!(resp.token, Some(text("t")));
}

#[test]
fn decode_response_unescapes_token() {
    let resp = decode_response(br#"{"token":"aAb\nc"}"#).expect("valid answer");
    assert_eq!(resp.token, Some(text("aAb\nc")));
}

#[test]
fn decode_response_reencodes_unicode_escapes() {
    let resp = decode_response(br#"{"token":"caf\u00e9"}"#).expect("valid answer");
    assert_eq!(resp.token, Some(text("caf\u{e9}")));
    let resp = decode_response(br#"{"token":"\u2603"}"#).expect("valid answer");
    assert_eq!(resp.token, Some(text("\u{2603}")));
    let resp = decode_response(br#"{"token":"\ud83c\udf89"}"#).expect("surrogate pair");
    assert_eq!(resp.token, Some(text("\u{1f389}")));
}

#[test]
fn decode_response_rejects_lone_surrogate_escapes() {
    assert!(decode_response(br#"{"token":"\uD83C"}"#).is_none());
    assert!(decode_response(br#"{"token":"\uDF89"}"#).is_none());
    assert!(decode_response(br#"{"token":"\uD83Cx"}"#).is_none());
}

#[test]
fn decoded_escapes_match_serde_json() {
    let raw = br#"{"token":"a\u00e9\u2603\uD83C\uDF89\tA"}"#;
    let ours = decode_response(raw).expect("valid answer").token.expect("token");
    let v: serde_json::Value = serde_json::from_slice(raw).expect("well-formed JSON");
    assert_eq!(ours.encode_for_export(), v["token"].as_str().expect("string").as_bytes());
}

#[test]
fn decode_response_rejects_empty_body() {
    assert!(decode_response(b"").is_none());
}

#[test]
fn decode_response_rejects_other_shapes() {
    assert!(decode_response(br#"{"error":"overloaded"}"#).is_none());
    assert!(decode_response(br#"{"token":7}"#).is_none());
    assert!(decode_response(br#"{"token":"t""#).is_none());
    assert!(decode_response(br#"{"token":"t"}x"#).is_none());
}
