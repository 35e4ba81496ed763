//! Base-address configuration and target resolution.

use naamio::address::{set_base_address, BaseAddress, Url};
use naamio::text::Text;

fn text(s: &str) -> Text {
    Text::decode_borrowed(s.as_bytes()).expect("valid UTF-8")
}

#[test]
fn default_base_address() {
    let base = BaseAddress::new();
    assert_eq!(base.address().encode_for_export(), b"http://localhost:8000");
}

#[test]
fn set_base_address_stores_valid_url() {
    let mut base = BaseAddress::new();
    assert!(set_base_address(&mut base, b"http://example.com:9000"));
    assert_eq!(base.address().encode_for_export(), b"http://example.com:9000");
}

#[test]
fn set_base_address_strips_trailing_separator() {
    let mut base = BaseAddress::new();
    assert!(set_base_address(&mut base, b"http://example.com/"));
    assert_eq!(base.address().encode_for_export(), b"http://example.com");
}

#[test]
fn set_base_address_rejects_malformed_and_keeps_previous() {
    let mut base = BaseAddress::new();
    for raw in [
        &b"not a url"[..],
        b"",
        b"/relative/only",
        b"http://",
        b"://missing-scheme",
        b"http://exa mple.com",
        &[0x68, 0xff, 0x21][..],
    ] {
        assert!(!set_base_address(&mut base, raw), "{:?} must be rejected", raw);
        assert_eq!(
            base.address().encode_for_export(),
            b"http://localhost:8000",
            "previous address must be intact after {:?}",
            raw
        );
    }
}

#[test]
fn set_base_address_accepts_https() {
    let mut base = BaseAddress::new();
    assert!(set_base_address(&mut base, b"https://naamio.example"));
    assert_eq!(base.address().encode_for_export(), b"https://naamio.example");
}

#[test]
fn relative_target_is_exact_concatenation() {
    let base = BaseAddress::new();
    let t = Url::relative(&base, &text("/search")).expect("valid target");
    assert_eq!(t.encode_for_export(), b"http://localhost:8000/search");
}

#[test]
fn configured_then_relative_target() {
    let mut base = BaseAddress::new();
    assert!(set_base_address(&mut base, b"http://example.com:9000/"));
    let t = Url::relative(&base, &text("/register")).expect("valid target");
    assert_eq!(t.encode_for_export(), b"http://example.com:9000/register");
}

#[test]
fn absolute_target_is_used_verbatim() {
    let t = Url::absolute(&text("http://other.host:99/x")).expect("valid target");
    assert_eq!(t.encode_for_export(), b"http://other.host:99/x");
}

#[test]
fn absolute_rejects_malformed() {
    let e = Url::absolute(&text("http://exa mple.com")).unwrap_err();
    assert_eq!(e.kind_name(), "address syntax error");
}

#[test]
fn resolve_branches_on_leading_separator() {
    let base = BaseAddress::new();
    let rel = Url::resolve(&base, &text("/register")).expect("relative target");
    assert_eq!(rel.encode_for_export(), b"http://localhost:8000/register");
    let abs = Url::resolve(&base, &text("http://other.host/register")).expect("absolute target");
    assert_eq!(abs.encode_for_export(), b"http://other.host/register");
}
