//! Boundary codec behaviour on concrete byte views.

use naamio::text::Text;

#[test]
fn decode_borrowed_accepts_ascii() {
    let t = Text::decode_borrowed(b"search").expect("ascii is valid");
    assert_eq!(t.encode_for_export(), b"search");
    assert_eq!(t.len(), 6);
}

#[test]
fn decode_borrowed_accepts_multibyte() {
    let raw = "caf\u{e9} \u{1f389}".as_bytes();
    let t = Text::decode_borrowed(raw).expect("well-formed UTF-8 is valid");
    assert_eq!(t.encode_for_export(), raw);
}

#[test]
fn decode_borrowed_rejects_stray_byte() {
    assert!(Text::decode_borrowed(&[0x66, 0xff, 0x6f]).is_none());
}

#[test]
fn decode_borrowed_rejects_truncated_sequence() {
    assert!(Text::decode_borrowed(&[0xe2, 0x82]).is_none());
}

#[test]
fn decode_borrowed_rejects_overlong_encoding() {
    assert!(Text::decode_borrowed(&[0xc0, 0x80]).is_none());
}

#[test]
fn decode_borrowed_rejects_surrogate() {
    assert!(Text::decode_borrowed(&[0xed, 0xa0, 0x80]).is_none());
}

#[test]
fn decode_owned_keeps_valid_input() {
    let raw = "caf\u{e9}".as_bytes();
    let t = Text::decode_owned(raw);
    assert_eq!(t.encode_for_export(), raw);
}

#[test]
fn decode_owned_replaces_stray_byte() {
    let t = Text::decode_owned(&[0x66, 0xff, 0x6f]);
    assert_eq!(t.encode_for_export(), "f\u{fffd}o".as_bytes());
}

#[test]
fn decode_owned_replaces_maximal_subparts() {
    // a truncated three-byte sequence is one maximal ill-formed
    // subsequence: one replacement for both bytes
    let t = Text::decode_owned(&[0xe2, 0x82]);
    assert_eq!(t.encode_for_export(), "\u{fffd}".as_bytes());
    // a continuation byte outside its lead's range starts a new
    // subsequence of its own
    let t = Text::decode_owned(&[0xe0, 0x80]);
    assert_eq!(t.encode_for_export(), "\u{fffd}\u{fffd}".as_bytes());
    // an encoded surrogate: the lead alone, then each continuation byte
    let t = Text::decode_owned(&[0xed, 0xa0, 0x80]);
    assert_eq!(t.encode_for_export(), "\u{fffd}\u{fffd}\u{fffd}".as_bytes());
    // a truncated four-byte sequence: one replacement
    let t = Text::decode_owned(&[0xf0, 0x9f, 0x8e]);
    assert_eq!(t.encode_for_export(), "\u{fffd}".as_bytes());
}

#[test]
fn decode_owned_matches_std_lossy_conversion() {
    let samples: &[&[u8]] = &[
        b"plain ascii",
        "caf\u{e9} \u{1f389}".as_bytes(),
        &[0x66, 0xff, 0x6f],
        &[0xe2, 0x82],
        &[0xe2, 0x82, 0x28],
        &[0xe0, 0x80, 0xaf],
        &[0xed, 0xa0, 0x80, 0x62],
        &[0xf0, 0x9f, 0x8e],
        &[0xf0, 0x28, 0x8c, 0xbc],
        &[0xf4, 0x90, 0x80, 0x80],
        &[0xc0, 0xaf],
        &[0xc2],
        &[0x80, 0x80],
    ];
    for raw in samples {
        let t = Text::decode_owned(raw);
        assert_eq!(
            t.encode_for_export(),
            String::from_utf8_lossy(raw).as_bytes(),
            "lossy decode of {:?} must match the standard substitution",
            raw
        );
    }
}

#[test]
fn decode_owned_empty() {
    let t = Text::decode_owned(b"");
    assert_eq!(t.encode_for_export(), b"");
}

#[test]
fn concat_joins_bytes() {
    let a = Text::decode_borrowed(b"http://host").unwrap();
    let b = Text::decode_borrowed(b"/path").unwrap();
    assert_eq!(a.concat(&b).encode_for_export(), b"http://host/path");
}

#[test]
fn strip_trailing_removes_all_trailing_slashes() {
    let t = Text::decode_borrowed(b"http://host///").unwrap();
    assert_eq!(t.strip_trailing(0x2f).encode_for_export(), b"http://host");
    let u = Text::decode_borrowed(b"http://host").unwrap();
    assert_eq!(u.strip_trailing(0x2f).encode_for_export(), b"http://host");
}

#[test]
fn from_ascii_builds_text() {
    let t = Text::from_ascii(b"abc".to_vec());
    assert_eq!(t.encode_for_export(), b"abc");
}

#[test]
fn empty_text() {
    assert_eq!(Text::empty().encode_for_export(), b"");
}
