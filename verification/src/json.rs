//! JSON wire framing.
//!
//! The engine exchanges exactly two JSON shapes with the coordinating
//! host: the outbound registration object
//! `{"name": string, "rel_url": string, "endpoint": string}` and the
//! inbound answer `{"token": string|null}`.  Both are framed here over
//! raw bytes: the encoder emits the canonical form, and the decoders
//! accept that form with optional JSON whitespace around tokens.
//!
//! String escaping covers what the encoder emits plus the standard short
//! escapes: `\" \\ \/ \b \f \n \r \t` and `\uXXXX` for any code point,
//! surrogate pairs included; an escaped code point is re-encoded as
//! UTF-8, and a lone surrogate escape is rejected.

use crate::bytes::push_all;
use crate::text::Text;
use crate::types::{RegistrationData, RegistrationResponse};
use vstd::prelude::*;
use vstd::utf8::valid_utf8;

verus! {

// Punctuation bytes of the wire format.
pub open spec fn q_mark() -> u8 {
    0x22
}

pub open spec fn bslash() -> u8 {
    0x5c
}

pub open spec fn lbrace() -> u8 {
    0x7b
}

pub open spec fn rbrace() -> u8 {
    0x7d
}

pub open spec fn colon() -> u8 {
    0x3a
}

pub open spec fn comma() -> u8 {
    0x2c
}

/// The bytes of the field name `name`.
pub open spec fn key_name() -> Seq<u8> {
    seq![0x6eu8, 0x61u8, 0x6du8, 0x65u8]
}

/// The bytes of the field name `rel_url`.
pub open spec fn key_rel_url() -> Seq<u8> {
    seq![0x72u8, 0x65u8, 0x6cu8, 0x5fu8, 0x75u8, 0x72u8, 0x6cu8]
}

/// The bytes of the field name `endpoint`.
pub open spec fn key_endpoint() -> Seq<u8> {
    seq![0x65u8, 0x6eu8, 0x64u8, 0x70u8, 0x6fu8, 0x69u8, 0x6eu8, 0x74u8]
}

/// The bytes of the field name `token`.
pub open spec fn key_token() -> Seq<u8> {
    seq![0x74u8, 0x6fu8, 0x6bu8, 0x65u8, 0x6eu8]
}

/// The bytes of the literal `null`.
pub open spec fn lit_null() -> Seq<u8> {
    seq![0x6eu8, 0x75u8, 0x6cu8, 0x6cu8]
}

/// Lower-case hexadecimal digit for a value below 16.
pub open spec fn hex_digit(n: u8) -> u8
    recommends
        n < 16,
{
    if n < 10 {
        (0x30 + n) as u8
    } else {
        (0x57 + n) as u8
    }
}

/// How one byte of string content is written on the wire: quote and
/// backslash get a backslash escape, control bytes become `\u00XX`, and
/// every other byte stands for itself.
pub open spec fn escape_byte(b: u8) -> Seq<u8> {
    if b == q_mark() {
        seq![bslash(), q_mark()]
    } else if b == bslash() {
        seq![bslash(), bslash()]
    } else if b < 0x20 {
        seq![bslash(), 0x75u8, 0x30u8, 0x30u8, hex_digit(b / 16), hex_digit(b % 16)]
    } else {
        seq![b]
    }
}

/// The escaped form of a whole string content.
pub open spec fn json_escaped(s: Seq<u8>) -> Seq<u8>
    decreases s.len(),
{
    if s.len() == 0 {
        seq![]
    } else {
        escape_byte(s[0]) + json_escaped(s.drop_first())
    }
}

/// A JSON string token: quote, escaped content, quote.
pub open spec fn quoted(s: Seq<u8>) -> Seq<u8> {
    seq![q_mark()] + json_escaped(s) + seq![q_mark()]
}

/// The canonical encoding of a registration object.
pub open spec fn encoded_registration(name: Seq<u8>, rel_url: Seq<u8>, endpoint: Seq<u8>) -> Seq<
    u8,
> {
    seq![lbrace()] + quoted(key_name()) + seq![colon()] + quoted(name) + seq![comma()] + quoted(
        key_rel_url(),
    ) + seq![colon()] + quoted(rel_url) + seq![comma()] + quoted(key_endpoint()) + seq![colon()]
        + quoted(endpoint) + seq![rbrace()]
}

// ---------------------------------------------------------------------
// The wire grammar, as suffix parsers: each spec function consumes a
// prefix of the byte sequence and returns what it parsed together with
// the remaining suffix, or `None` when the input does not match.
// ---------------------------------------------------------------------

/// JSON whitespace.
pub open spec fn is_ws(b: u8) -> bool {
    b == 0x20 || b == 0x09 || b == 0x0a || b == 0x0d
}

/// Drop leading JSON whitespace.
pub open spec fn sp_ws(s: Seq<u8>) -> Seq<u8>
    decreases s.len(),
{
    if s.len() > 0 && is_ws(s[0]) {
        sp_ws(s.drop_first())
    } else {
        s
    }
}

/// The escapes written as a backslash and one byte.
pub open spec fn is_short_escape(e: u8) -> bool {
    e == 0x22 || e == 0x5c || e == 0x2f || e == 0x62 || e == 0x66 || e == 0x6e || e == 0x72 || e
        == 0x74
}

/// The content byte named by a short escape.
pub open spec fn unescape_short(e: u8) -> u8
    recommends
        is_short_escape(e),
{
    if e == 0x62 {
        0x08
    } else if e == 0x66 {
        0x0c
    } else if e == 0x6e {
        0x0a
    } else if e == 0x72 {
        0x0d
    } else if e == 0x74 {
        0x09
    } else {
        e
    }
}

/// Hexadecimal digit, either case.
pub open spec fn is_hex(b: u8) -> bool {
    (0x30 <= b && b <= 0x39) || (0x61 <= b && b <= 0x66) || (0x41 <= b && b <= 0x46)
}

/// Value of a hexadecimal digit.
pub open spec fn hex_val(b: u8) -> u8
    recommends
        is_hex(b),
{
    if 0x30 <= b && b <= 0x39 {
        (b - 0x30) as u8
    } else if 0x61 <= b && b <= 0x66 {
        (b - 0x57) as u8
    } else {
        (b - 0x37) as u8
    }
}

/// The value of four hexadecimal digit bytes.
pub open spec fn hex4(a: u8, b: u8, c: u8, d: u8) -> int
    recommends
        is_hex(a) && is_hex(b) && is_hex(c) && is_hex(d),
{
    hex_val(a) * 0x1000 + hex_val(b) * 0x100 + hex_val(c) * 0x10 + hex_val(d)
}

/// Whether `s` starts with a full `\uXXXX` escape whose four digits are
/// hexadecimal (the leading backslash is `s[0]`).
pub open spec fn u_escape_at(s: Seq<u8>, i: int) -> bool {
    i + 6 <= s.len() && s[i] == bslash() && s[i + 1] == 0x75 && is_hex(s[i + 2]) && is_hex(
        s[i + 3],
    ) && is_hex(s[i + 4]) && is_hex(s[i + 5])
}

/// The code unit a `\uXXXX` escape at `i` names.
pub open spec fn u_escape_val(s: Seq<u8>, i: int) -> int
    recommends
        u_escape_at(s, i),
{
    hex4(s[i + 2], s[i + 3], s[i + 4], s[i + 5])
}

/// Parse the remainder of a string token, after its opening quote:
/// content bytes and escapes up to the closing quote.  An escaped code
/// point is re-encoded as UTF-8; a high-surrogate escape must be
/// followed by a low-surrogate escape, and a lone surrogate escape is
/// rejected.
pub open spec fn sp_string_body(s: Seq<u8>) -> Option<(Seq<u8>, Seq<u8>)>
    decreases s.len(),
{
    if s.len() == 0 {
        None
    } else if s[0] == q_mark() {
        Some((seq![], s.drop_first()))
    } else if s[0] == bslash() {
        if s.len() < 2 {
            None
        } else {
            let e = s[1];
            if is_short_escape(e) {
                match sp_string_body(s.skip(2)) {
                    Some(p) => Some((seq![unescape_short(e)] + p.0, p.1)),
                    None => None,
                }
            } else if e == 0x75 {
                if u_escape_at(s, 0) {
                    let cp = u_escape_val(s, 0);
                    if 0xd800 <= cp <= 0xdbff {
                        if u_escape_at(s, 6) && 0xdc00 <= u_escape_val(s, 6) <= 0xdfff {
                            let scalar = 0x10000 + (cp - 0xd800) * 0x400 + (u_escape_val(s, 6)
                                - 0xdc00);
                            match sp_string_body(s.skip(12)) {
                                Some(p) => Some(
                                    (vstd::utf8::encode_scalar(scalar as u32) + p.0, p.1),
                                ),
                                None => None,
                            }
                        } else {
                            None
                        }
                    } else if 0xdc00 <= cp <= 0xdfff {
                        None
                    } else {
                        match sp_string_body(s.skip(6)) {
                            Some(p) => Some((vstd::utf8::encode_scalar(cp as u32) + p.0, p.1)),
                            None => None,
                        }
                    }
                } else {
                    None
                }
            } else {
                None
            }
        }
    } else if s[0] < 0x20 {
        None
    } else {
        match sp_string_body(s.drop_first()) {
            Some(p) => Some((seq![s[0]] + p.0, p.1)),
            None => None,
        }
    }
}

/// Parse a whole string token.
pub open spec fn sp_string(s: Seq<u8>) -> Option<(Seq<u8>, Seq<u8>)> {
    if s.len() > 0 && s[0] == q_mark() {
        sp_string_body(s.drop_first())
    } else {
        None
    }
}

/// Parse one punctuation byte, allowing whitespace before it.
pub open spec fn sp_punct(s: Seq<u8>, b: u8) -> Option<Seq<u8>> {
    let t = sp_ws(s);
    if t.len() > 0 && t[0] == b {
        Some(t.drop_first())
    } else {
        None
    }
}

/// Parse one `"key": "value"` member whose key must be `key`.
pub open spec fn sp_member(s: Seq<u8>, key: Seq<u8>) -> Option<(Seq<u8>, Seq<u8>)> {
    match sp_string(sp_ws(s)) {
        Some(k) => if k.0 == key {
            match sp_punct(k.1, colon()) {
                Some(r) => sp_string(sp_ws(r)),
                None => None,
            }
        } else {
            None
        },
        None => None,
    }
}

/// Parse a whole registration object in its canonical member order.
pub open spec fn sp_registration(s: Seq<u8>) -> Option<(Seq<u8>, Seq<u8>, Seq<u8>)> {
    match sp_punct(s, lbrace()) {
        Some(s1) => match sp_member(s1, key_name()) {
            Some((name, r1)) => match sp_punct(r1, comma()) {
                Some(s2) => match sp_member(s2, key_rel_url()) {
                    Some((rel_url, r2)) => match sp_punct(r2, comma()) {
                        Some(s3) => match sp_member(s3, key_endpoint()) {
                            Some((endpoint, r3)) => match sp_punct(r3, rbrace()) {
                                Some(r4) => if sp_ws(r4).len() == 0 {
                                    Some((name, rel_url, endpoint))
                                } else {
                                    None
                                },
                                None => None,
                            },
                            None => None,
                        },
                        None => None,
                    },
                    None => None,
                },
                None => None,
            },
            None => None,
        },
        None => None,
    }
}

/// Parse the `"token"` member, whose value is a string or `null`.
pub open spec fn sp_token_member(s: Seq<u8>) -> Option<(Option<Seq<u8>>, Seq<u8>)> {
    match sp_string(sp_ws(s)) {
        Some(k) => if k.0 == key_token() {
            match sp_punct(k.1, colon()) {
                Some(r) => {
                    let v = sp_ws(r);
                    if v.len() >= 4 && v.take(4) == lit_null() {
                        Some((None, v.skip(4)))
                    } else {
                        match sp_string(v) {
                            Some(p) => Some((Some(p.0), p.1)),
                            None => None,
                        }
                    }
                },
                None => None,
            }
        } else {
            None
        },
        None => None,
    }
}

/// Parse a whole answer object: `{}` or `{"token": string|null}`.
pub open spec fn sp_response(s: Seq<u8>) -> Option<Option<Seq<u8>>> {
    match sp_punct(s, lbrace()) {
        Some(s1) => {
            let t = sp_ws(s1);
            if t.len() > 0 && t[0] == rbrace() {
                if sp_ws(t.drop_first()).len() == 0 {
                    Some(None)
                } else {
                    None
                }
            } else {
                match sp_token_member(s1) {
                    Some((tok, r)) => match sp_punct(r, rbrace()) {
                        Some(r2) => if sp_ws(r2).len() == 0 {
                            Some(tok)
                        } else {
                            None
                        },
                        None => None,
                    },
                    None => None,
                }
            }
        },
        None => None,
    }
}

/// Escaping distributes over concatenation.
pub proof fn lemma_json_escaped_concat(a: Seq<u8>, b: Seq<u8>)
    ensures
        json_escaped(a + b) == json_escaped(a) + json_escaped(b),
    decreases a.len(),
{
    if a.len() == 0 {
        assert(a + b =~= b);
        assert(json_escaped(a) + json_escaped(b) =~= json_escaped(b));
    } else {
        assert((a + b).len() != 0);
        assert((a + b)[0] == a[0]);
        assert((a + b).drop_first() =~= a.drop_first() + b);
        lemma_json_escaped_concat(a.drop_first(), b);
        assert(escape_byte(a[0]) + (json_escaped(a.drop_first()) + json_escaped(b))
            =~= (escape_byte(a[0]) + json_escaped(a.drop_first())) + json_escaped(b));
    }
}

/// `hex_val` inverts `hex_digit`.
proof fn lemma_hex_digit_val(x: u8)
    requires
        x < 16,
    ensures
        is_hex(hex_digit(x)),
        hex_val(hex_digit(x)) == x,
{
}

/// A string body parses back to the content it was escaped from, leaving
/// whatever follows the closing quote untouched.
proof fn lemma_string_body_roundtrip(v: Seq<u8>, rest: Seq<u8>)
    ensures
        sp_string_body(json_escaped(v) + seq![q_mark()] + rest) == Some((v, rest)),
    decreases v.len(),
{
    let s = json_escaped(v) + seq![q_mark()] + rest;
    if v.len() == 0 {
        assert(s =~= seq![q_mark()] + rest);
        assert(s[0] == q_mark());
        assert(s.drop_first() =~= rest);
        assert(sp_string_body(s) == Some((Seq::<u8>::empty(), rest)));
        assert(Seq::<u8>::empty() =~= v);
    } else {
        let b = v[0];
        let tail = json_escaped(v.drop_first()) + seq![q_mark()] + rest;
        lemma_json_escaped_concat(seq![b], v.drop_first());
        assert(seq![b] + v.drop_first() =~= v);
        assert(seq![b].drop_first() =~= Seq::<u8>::empty());
        assert(json_escaped(seq![b]) =~= escape_byte(b));
        assert(s =~= escape_byte(b) + tail);
        lemma_string_body_roundtrip(v.drop_first(), rest);
        if b == q_mark() || b == bslash() {
            assert(s[0] == bslash());
            assert(s[1] == b);
            assert(is_short_escape(b));
            assert(s.len() >= 2);
            assert(s.skip(2) =~= tail);
            assert(unescape_short(b) == b);
            assert(seq![b] + v.drop_first() =~= v);
        } else if b < 0x20 {
            let h1 = hex_digit(b / 16);
            let h2 = hex_digit(b % 16);
            assert(s[0] == bslash());
            assert(s[1] == 0x75u8);
            assert(!is_short_escape(0x75u8));
            assert(s[2] == 0x30u8);
            assert(s[3] == 0x30u8);
            assert(s[4] == h1);
            assert(s[5] == h2);
            assert(s.len() >= 6);
            assert(b / 16 < 16 && b % 16 < 16);
            lemma_hex_digit_val(b / 16);
            lemma_hex_digit_val(b % 16);
            assert(is_hex(0x30u8) && hex_val(0x30u8) == 0);
            assert(u_escape_at(s, 0));
            let cpv = u_escape_val(s, 0);
            assert(cpv == hex_val(h1) * 16 + hex_val(h2));
            assert((b / 16) * 16 + b % 16 == b) by {
                vstd::arithmetic::div_mod::lemma_fundamental_div_mod(b as int, 16);
            }
            assert(cpv == b);
            assert(s.skip(6) =~= tail);
            assert(((b as u32) & 0x7f) as u8 == b) by (bit_vector)
                requires
                    b < 0x20,
            ;
            assert(vstd::utf8::encode_scalar(cpv as u32) =~= seq![b]);
            assert(seq![b] + v.drop_first() =~= v);
        } else {
            assert(s[0] == b);
            assert(b != q_mark() && b != bslash() && b >= 0x20);
            assert(s.drop_first() =~= tail);
            assert(seq![b] + v.drop_first() =~= v);
        }
    }
}

/// A string token parses back to the content it was built from.
pub proof fn lemma_string_roundtrip(v: Seq<u8>, rest: Seq<u8>)
    ensures
        sp_string(quoted(v) + rest) == Some((v, rest)),
{
    let s = quoted(v) + rest;
    assert(s[0] == q_mark());
    assert(s.len() > 0);
    assert(s.drop_first() =~= json_escaped(v) + seq![q_mark()] + rest);
    lemma_string_body_roundtrip(v, rest);
}

/// Whitespace skipping does not move on input that does not start with
/// whitespace.
proof fn lemma_sp_ws_id(s: Seq<u8>)
    requires
        s.len() == 0 || !is_ws(s[0]),
    ensures
        sp_ws(s) == s,
{
}

/// A canonical member parses back to its value.
proof fn lemma_member_roundtrip(key: Seq<u8>, v: Seq<u8>, rest: Seq<u8>)
    ensures
        sp_member(quoted(key) + seq![colon()] + quoted(v) + rest, key) == Some((v, rest)),
{
    let s = quoted(key) + seq![colon()] + quoted(v) + rest;
    let after_key = seq![colon()] + quoted(v) + rest;
    assert(s[0] == q_mark());
    lemma_sp_ws_id(s);
    assert(s =~= quoted(key) + after_key);
    lemma_string_roundtrip(key, after_key);
    assert(sp_string(sp_ws(s)) == Some((key, after_key)));
    // the colon
    assert(after_key[0] == colon());
    lemma_sp_ws_id(after_key);
    assert(after_key.drop_first() =~= quoted(v) + rest);
    assert(sp_punct(after_key, colon()) == Some(quoted(v) + rest));
    // the value
    assert((quoted(v) + rest)[0] == q_mark());
    lemma_sp_ws_id(quoted(v) + rest);
    lemma_string_roundtrip(v, rest);
}

/// The round trip of the wire format: a registration object encoded in
/// its canonical form and decoded with the same schema yields the same
/// three fields.
pub proof fn lemma_registration_roundtrip(name: Seq<u8>, rel_url: Seq<u8>, endpoint: Seq<u8>)
    ensures
        sp_registration(encoded_registration(name, rel_url, endpoint)) == Some(
            (name, rel_url, endpoint),
        ),
{
    let s = encoded_registration(name, rel_url, endpoint);
    let m1 = quoted(key_name()) + seq![colon()] + quoted(name);
    let m2 = quoted(key_rel_url()) + seq![colon()] + quoted(rel_url);
    let m3 = quoted(key_endpoint()) + seq![colon()] + quoted(endpoint);
    let t1 = m1 + seq![comma()] + m2 + seq![comma()] + m3 + seq![rbrace()];
    let t2 = m2 + seq![comma()] + m3 + seq![rbrace()];
    let t3 = m3 + seq![rbrace()];
    // the opening brace
    assert(s[0] == lbrace());
    lemma_sp_ws_id(s);
    assert(s.drop_first() =~= t1);
    assert(sp_punct(s, lbrace()) == Some(t1));
    // the name member and its comma
    assert(t1 =~= quoted(key_name()) + seq![colon()] + quoted(name) + (seq![comma()] + t2));
    lemma_member_roundtrip(key_name(), name, seq![comma()] + t2);
    assert(sp_member(t1, key_name()) == Some((name, seq![comma()] + t2)));
    assert((seq![comma()] + t2)[0] == comma());
    lemma_sp_ws_id(seq![comma()] + t2);
    assert((seq![comma()] + t2).drop_first() =~= t2);
    assert(sp_punct(seq![comma()] + t2, comma()) == Some(t2));
    // the rel_url member and its comma
    assert(t2 =~= quoted(key_rel_url()) + seq![colon()] + quoted(rel_url) + (seq![comma()] + t3));
    lemma_member_roundtrip(key_rel_url(), rel_url, seq![comma()] + t3);
    assert(sp_member(t2, key_rel_url()) == Some((rel_url, seq![comma()] + t3)));
    assert((seq![comma()] + t3)[0] == comma());
    lemma_sp_ws_id(seq![comma()] + t3);
    assert((seq![comma()] + t3).drop_first() =~= t3);
    assert(sp_punct(seq![comma()] + t3, comma()) == Some(t3));
    // the endpoint member and the closing brace
    assert(t3 =~= quoted(key_endpoint()) + seq![colon()] + quoted(endpoint) + seq![rbrace()]);
    lemma_member_roundtrip(key_endpoint(), endpoint, seq![rbrace()]);
    assert(sp_member(t3, key_endpoint()) == Some((endpoint, seq![rbrace()])));
    assert(seq![rbrace()][0] == rbrace());
    lemma_sp_ws_id(seq![rbrace()]);
    assert(seq![rbrace()].drop_first() =~= Seq::<u8>::empty());
    assert(sp_punct(seq![rbrace()], rbrace()) == Some(Seq::<u8>::empty()));
    assert(sp_ws(Seq::<u8>::empty()).len() == 0);
}

/// Lower-case hexadecimal digit, executable form.
fn hex_digit_ex(n: u8) -> (r: u8)
    requires
        n < 16,
    ensures
        r == hex_digit(n),
{
    if n < 10 {
        0x30 + n
    } else {
        0x57 + n
    }
}

/// Append the escaped form of `s` to `out`.
fn escape_append(out: &mut Vec<u8>, s: &[u8])
    ensures
        final(out)@ == old(out)@ + json_escaped(s@),
{
    let n = s.len();
    let mut i: usize = 0;
    proof {
        assert(s@.take(0) =~= Seq::<u8>::empty());
        assert(out@ + json_escaped(s@.take(0)) =~= out@);
    }
    while i < n
        invariant
            i <= n,
            n == s@.len(),
            out@ == old(out)@ + json_escaped(s@.take(i as int)),
        decreases n - i,
    {
        let b = *vstd::slice::slice_index_get(s, i);
        let ghost prev = out@;
        if b == 0x22 {
            out.push(0x5c);
            out.push(0x22);
        } else if b == 0x5c {
            out.push(0x5c);
            out.push(0x5c);
        } else if b < 0x20 {
            out.push(0x5c);
            out.push(0x75);
            out.push(0x30);
            out.push(0x30);
            out.push(hex_digit_ex(b / 16));
            out.push(hex_digit_ex(b % 16));
        } else {
            out.push(b);
        }
        proof {
            assert(out@ =~= prev + escape_byte(b));
            assert(s@.take(i as int + 1) =~= s@.take(i as int) + seq![b]);
            lemma_json_escaped_concat(s@.take(i as int), seq![b]);
            assert(seq![b].drop_first() =~= Seq::<u8>::empty());
            assert(json_escaped(seq![b].drop_first()) == Seq::<u8>::empty());
            assert(json_escaped(seq![b]) =~= escape_byte(b));
            assert(out@ =~= old(out)@ + json_escaped(s@.take(i as int + 1)));
        }
        i = i + 1;
    }
    proof {
        assert(s@.take(n as int) =~= s@);
    }
}

/// Append a JSON string token for the content `s` to `out`.
fn quoted_append(out: &mut Vec<u8>, s: &[u8])
    ensures
        final(out)@ == old(out)@ + quoted(s@),
{
    let ghost at_start = out@;
    out.push(0x22);
    proof {
        assert(out@ =~= at_start + seq![q_mark()]);
    }
    escape_append(out, s);
    out.push(0x22);
    proof {
        assert(out@ =~= at_start + quoted(s@));
    }
}

/// Encode a registration object into its canonical wire form.
pub fn encode_registration(d: &RegistrationData) -> (r: Vec<u8>)
    ensures
        r@ == encoded_registration(d.name@, d.rel_url@, d.endpoint@),
{
    let key_name_b: [u8; 4] = [0x6e, 0x61, 0x6d, 0x65];
    let key_rel_url_b: [u8; 7] = [0x72, 0x65, 0x6c, 0x5f, 0x75, 0x72, 0x6c];
    let key_endpoint_b: [u8; 8] = [0x65, 0x6e, 0x64, 0x70, 0x6f, 0x69, 0x6e, 0x74];
    proof {
        assert(key_name_b@ =~= key_name());
        assert(key_rel_url_b@ =~= key_rel_url());
        assert(key_endpoint_b@ =~= key_endpoint());
    }
    let mut out: Vec<u8> = Vec::new();
    out.push(0x7b);
    quoted_append(&mut out, key_name_b.as_slice());
    out.push(0x3a);
    quoted_append(&mut out, d.name.encode_for_export());
    out.push(0x2c);
    quoted_append(&mut out, key_rel_url_b.as_slice());
    out.push(0x3a);
    quoted_append(&mut out, d.rel_url.encode_for_export());
    out.push(0x2c);
    quoted_append(&mut out, key_endpoint_b.as_slice());
    out.push(0x3a);
    quoted_append(&mut out, d.endpoint.encode_for_export());
    out.push(0x7d);
    proof {
        assert(out@ =~= encoded_registration(d.name@, d.rel_url@, d.endpoint@));
    }
    out
}

// ---------------------------------------------------------------------
// Executable parsers, each the image of one suffix parser above: they
// walk the byte view with an index, and the contract ties the index to
// the suffix the spec parser would leave.
// ---------------------------------------------------------------------

/// Skip whitespace from `i`; the new index marks the suffix `sp_ws` keeps.
fn p_ws(s: &[u8], i: usize) -> (r: usize)
    requires
        i <= s@.len(),
    ensures
        i <= r <= s@.len(),
        s@.skip(r as int) == sp_ws(s@.skip(i as int)),
    decreases s@.len() - i,
{
    let n = s.len();
    if i < n {
        let b = *vstd::slice::slice_index_get(s, i);
        proof {
            assert(s@.skip(i as int)[0] == b);
        }
        if b == 0x20 || b == 0x09 || b == 0x0a || b == 0x0d {
            proof {
                assert(s@.skip(i as int).drop_first() =~= s@.skip(i as int + 1));
            }
            return p_ws(s, i + 1);
        }
    }
    i
}

/// Compare two byte views for equality.
fn bytes_eq(a: &[u8], b: &[u8]) -> (r: bool)
    ensures
        r == (a@ == b@),
{
    let n = a.len();
    if n != b.len() {
        return false;
    }
    let mut i: usize = 0;
    while i < n
        invariant
            i <= n,
            n == a@.len() && n == b@.len(),
            forall|k: int| 0 <= k < i ==> a@[k] == b@[k],
        decreases n - i,
    {
        if *vstd::slice::slice_index_get(a, i) != *vstd::slice::slice_index_get(b, i) {
            return false;
        }
        i = i + 1;
    }
    proof {
        assert(a@ =~= b@);
    }
    true
}

/// Parse a string token's remainder from `i` (after the opening quote).
fn p_string_body(s: &[u8], i: usize) -> (r: Option<(Vec<u8>, usize)>)
    requires
        i <= s@.len(),
    ensures
        match r {
            Some(p) => i <= p.1 <= s@.len() && sp_string_body(s@.skip(i as int)) == Some(
                (p.0@, s@.skip(p.1 as int)),
            ),
            None => sp_string_body(s@.skip(i as int)) is None,
        },
    decreases s@.len() - i,
{
    let ghost suf = s@.skip(i as int);
    let n = s.len();
    if i >= n {
        return None;
    }
    let b = *vstd::slice::slice_index_get(s, i);
    proof {
        assert(suf[0] == b);
    }
    if b == 0x22 {
        proof {
            assert(suf.drop_first() =~= s@.skip(i as int + 1));
        }
        let v: Vec<u8> = Vec::new();
        proof {
            assert(v@ =~= Seq::<u8>::empty());
        }
        return Some((v, i + 1));
    }
    if b == 0x5c {
        if n - i < 2 {
            return None;
        }
        let e = *vstd::slice::slice_index_get(s, i + 1);
        proof {
            assert(suf[1] == e);
        }
        if e == 0x22 || e == 0x5c || e == 0x2f || e == 0x62 || e == 0x66 || e == 0x6e || e == 0x72
            || e == 0x74 {
            proof {
                assert(suf.skip(2) =~= s@.skip(i as int + 2));
            }
            let c: u8 = if e == 0x62 {
                0x08
            } else if e == 0x66 {
                0x0c
            } else if e == 0x6e {
                0x0a
            } else if e == 0x72 {
                0x0d
            } else if e == 0x74 {
                0x09
            } else {
                e
            };
            match p_string_body(s, i + 2) {
                Some((mut v, j)) => {
                    let ghost tail = v@;
                    v.insert(0, c);
                    proof {
                        assert(v@ =~= seq![unescape_short(e)] + tail);
                    }
                    return Some((v, j));
                },
                None => {
                    return None;
                },
            }
        }
        if e == 0x75 {
            proof {
                lemma_u_escape_shift(s@, i as int, 0);
            }
            let cp = match p_u_escape(s, i) {
                Some(v) => v,
                None => {
                    return None;
                },
            };
            if 0xd800 <= cp && cp <= 0xdbff {
                // a high surrogate: its low partner must follow
                proof {
                    lemma_u_escape_shift(s@, i as int, 6);
                }
                let lo = match p_u_escape(s, i + 6) {
                    Some(v) => v,
                    None => {
                        return None;
                    },
                };
                if !(0xdc00 <= lo && lo <= 0xdfff) {
                    return None;
                }
                let scalar: u32 = 0x10000 + (cp - 0xd800) * 0x400 + (lo - 0xdc00);
                proof {
                    assert(suf.skip(12) =~= s@.skip(i as int + 12));
                }
                match p_string_body(s, i + 12) {
                    Some((v, j)) => {
                        let mut decoded: Vec<u8> = Vec::new();
                        push_scalar(&mut decoded, scalar);
                        let mut tail = v;
                        let ghost tail_view = tail@;
                        decoded.append(&mut tail);
                        proof {
                            assert(decoded@ =~= vstd::utf8::encode_scalar(scalar) + tail_view);
                        }
                        return Some((decoded, j));
                    },
                    None => {
                        return None;
                    },
                }
            }
            if 0xdc00 <= cp && cp <= 0xdfff {
                return None;
            }
            proof {
                assert(suf.skip(6) =~= s@.skip(i as int + 6));
            }
            match p_string_body(s, i + 6) {
                Some((v, j)) => {
                    let mut decoded: Vec<u8> = Vec::new();
                    push_scalar(&mut decoded, cp);
                    let mut tail = v;
                    let ghost tail_view = tail@;
                    decoded.append(&mut tail);
                    proof {
                        assert(decoded@ =~= vstd::utf8::encode_scalar(cp) + tail_view);
                    }
                    return Some((decoded, j));
                },
                None => {
                    return None;
                },
            }
        }
        return None;
    }
    if b < 0x20 {
        return None;
    }
    proof {
        assert(suf.drop_first() =~= s@.skip(i as int + 1));
    }
    match p_string_body(s, i + 1) {
        Some((mut v, j)) => {
            let ghost tail = v@;
            v.insert(0, b);
            proof {
                assert(v@ =~= seq![b] + tail);
            }
            Some((v, j))
        },
        None => None,
    }
}

/// A `\uXXXX` escape keeps its shape and value under a shift of view.
proof fn lemma_u_escape_shift(s: Seq<u8>, i: int, j: int)
    requires
        0 <= i,
        0 <= j,
        i + j <= s.len(),
    ensures
        u_escape_at(s.skip(i), j) == u_escape_at(s, i + j),
        u_escape_at(s, i + j) ==> u_escape_val(s.skip(i), j) == u_escape_val(s, i + j),
{
    let t = s.skip(i);
    assert(t.len() == s.len() - i);
    if i + j + 6 <= s.len() {
        assert(t[j] == s[i + j]);
        assert(t[j + 1] == s[i + j + 1]);
        assert(t[j + 2] == s[i + j + 2]);
        assert(t[j + 3] == s[i + j + 3]);
        assert(t[j + 4] == s[i + j + 4]);
        assert(t[j + 5] == s[i + j + 5]);
    }
}

/// Read a `\uXXXX` escape whose backslash stands at `i`.
fn p_u_escape(s: &[u8], i: usize) -> (r: Option<u32>)
    requires
        i <= s@.len(),
    ensures
        r is Some <==> u_escape_at(s@, i as int),
        r matches Some(v) ==> v == u_escape_val(s@, i as int) && v <= 0xffff,
{
    let n = s.len();
    if n - i < 6 {
        return None;
    }
    let b0 = *vstd::slice::slice_index_get(s, i);
    if b0 != 0x5c {
        return None;
    }
    let b1 = *vstd::slice::slice_index_get(s, i + 1);
    if b1 != 0x75 {
        return None;
    }
    let v0 = match hex_val_ex(*vstd::slice::slice_index_get(s, i + 2)) {
        Some(x) => x,
        None => {
            return None;
        },
    };
    let v1 = match hex_val_ex(*vstd::slice::slice_index_get(s, i + 3)) {
        Some(x) => x,
        None => {
            return None;
        },
    };
    let v2 = match hex_val_ex(*vstd::slice::slice_index_get(s, i + 4)) {
        Some(x) => x,
        None => {
            return None;
        },
    };
    let v3 = match hex_val_ex(*vstd::slice::slice_index_get(s, i + 5)) {
        Some(x) => x,
        None => {
            return None;
        },
    };
    let val: u32 = (v0 as u32) * 0x1000 + (v1 as u32) * 0x100 + (v2 as u32) * 0x10 + (v3 as u32);
    Some(val)
}

/// Append the UTF-8 encoding of one scalar to `out`.
fn push_scalar(out: &mut Vec<u8>, scalar: u32)
    requires
        scalar <= 0x10ffff,
        !(0xd800 <= scalar <= 0xdfff),
    ensures
        final(out)@ == old(out)@ + vstd::utf8::encode_scalar(scalar),
{
    let ghost prev = out@;
    if scalar <= 0x7f {
        out.push((scalar & 0x7f) as u8);
    } else if scalar <= 0x7ff {
        out.push(0xc0u8 | (((scalar >> 6u32) & 0x1f) as u8));
        out.push(0x80u8 | ((scalar & 0x3f) as u8));
    } else if scalar <= 0xffff {
        out.push(0xe0u8 | (((scalar >> 12u32) & 0x0f) as u8));
        out.push(0x80u8 | (((scalar >> 6u32) & 0x3f) as u8));
        out.push(0x80u8 | ((scalar & 0x3f) as u8));
    } else {
        out.push(0xf0u8 | (((scalar >> 18u32) & 0x7) as u8));
        out.push(0x80u8 | (((scalar >> 12u32) & 0x3f) as u8));
        out.push(0x80u8 | (((scalar >> 6u32) & 0x3f) as u8));
        out.push(0x80u8 | ((scalar & 0x3f) as u8));
    }
    proof {
        assert(out@ =~= prev + vstd::utf8::encode_scalar(scalar));
    }
}

/// Value of a hexadecimal digit byte, when it is one.
fn hex_val_ex(b: u8) -> (r: Option<u8>)
    ensures
        r is Some <==> is_hex(b),
        r is Some ==> r->0 == hex_val(b),
{
    if 0x30 <= b && b <= 0x39 {
        Some(b - 0x30)
    } else if 0x61 <= b && b <= 0x66 {
        Some(b - 0x57)
    } else if 0x41 <= b && b <= 0x46 {
        Some(b - 0x37)
    } else {
        None
    }
}

/// Parse a whole string token at `i`.
fn p_string(s: &[u8], i: usize) -> (r: Option<(Vec<u8>, usize)>)
    requires
        i <= s@.len(),
    ensures
        match r {
            Some(p) => i <= p.1 <= s@.len() && sp_string(s@.skip(i as int)) == Some(
                (p.0@, s@.skip(p.1 as int)),
            ),
            None => sp_string(s@.skip(i as int)) is None,
        },
{
    let n = s.len();
    if i >= n {
        return None;
    }
    let b = *vstd::slice::slice_index_get(s, i);
    proof {
        assert(s@.skip(i as int)[0] == b);
    }
    if b != 0x22 {
        return None;
    }
    proof {
        assert(s@.skip(i as int).drop_first() =~= s@.skip(i as int + 1));
    }
    p_string_body(s, i + 1)
}

/// Parse one punctuation byte at `i`, allowing whitespace before it.
fn p_punct(s: &[u8], i: usize, b: u8) -> (r: Option<usize>)
    requires
        i <= s@.len(),
    ensures
        match r {
            Some(j) => i <= j <= s@.len() && sp_punct(s@.skip(i as int), b) == Some(
                s@.skip(j as int),
            ),
            None => sp_punct(s@.skip(i as int), b) is None,
        },
{
    let j = p_ws(s, i);
    let n = s.len();
    if j >= n {
        return None;
    }
    let c = *vstd::slice::slice_index_get(s, j);
    proof {
        assert(s@.skip(j as int)[0] == c);
    }
    if c != b {
        return None;
    }
    proof {
        assert(s@.skip(j as int).drop_first() =~= s@.skip(j as int + 1));
    }
    Some(j + 1)
}

/// Parse one `"key": "value"` member at `i` whose key must be `key`.
fn p_member(s: &[u8], i: usize, key: &[u8]) -> (r: Option<(Vec<u8>, usize)>)
    requires
        i <= s@.len(),
    ensures
        match r {
            Some(p) => i <= p.1 <= s@.len() && sp_member(s@.skip(i as int), key@) == Some(
                (p.0@, s@.skip(p.1 as int)),
            ),
            None => sp_member(s@.skip(i as int), key@) is None,
        },
{
    let j = p_ws(s, i);
    let (k, j2) = match p_string(s, j) {
        Some(p) => p,
        None => {
            return None;
        },
    };
    if !bytes_eq(k.as_slice(), key) {
        return None;
    }
    let j3 = match p_punct(s, j2, 0x3a) {
        Some(j3) => j3,
        None => {
            return None;
        },
    };
    let j4 = p_ws(s, j3);
    p_string(s, j4)
}

/// Parse the `"token"` member at `i`.
fn p_token_member(s: &[u8], i: usize) -> (r: Option<(Option<Vec<u8>>, usize)>)
    requires
        i <= s@.len(),
    ensures
        match r {
            Some(p) => i <= p.1 <= s@.len() && ({
                let m = sp_token_member(s@.skip(i as int));
                match p.0 {
                    Some(v) => m == Some((Some(v@), s@.skip(p.1 as int))),
                    None => m == Some((None::<Seq<u8>>, s@.skip(p.1 as int))),
                }
            }),
            None => sp_token_member(s@.skip(i as int)) is None,
        },
{
    let key_token_b: [u8; 5] = [0x74, 0x6f, 0x6b, 0x65, 0x6e];
    proof {
        assert(key_token_b@ =~= key_token());
    }
    let j = p_ws(s, i);
    let (k, j2) = match p_string(s, j) {
        Some(p) => p,
        None => {
            return None;
        },
    };
    if !bytes_eq(k.as_slice(), key_token_b.as_slice()) {
        return None;
    }
    let j3 = match p_punct(s, j2, 0x3a) {
        Some(j3) => j3,
        None => {
            return None;
        },
    };
    let j4 = p_ws(s, j3);
    let ghost v = s@.skip(j4 as int);
    let n = s.len();
    // `null` literal?
    if n - j4 >= 4 {
        let c0 = *vstd::slice::slice_index_get(s, j4);
        let c1 = *vstd::slice::slice_index_get(s, j4 + 1);
        let c2 = *vstd::slice::slice_index_get(s, j4 + 2);
        let c3 = *vstd::slice::slice_index_get(s, j4 + 3);
        proof {
            assert(v[0] == c0 && v[1] == c1 && v[2] == c2 && v[3] == c3);
        }
        if c0 == 0x6e && c1 == 0x75 && c2 == 0x6c && c3 == 0x6c {
            proof {
                assert(v.take(4) =~= lit_null());
                assert(v.skip(4) =~= s@.skip(j4 as int + 4));
            }
            return Some((None, j4 + 4));
        }
        proof {
            assert(v.take(4) != lit_null()) by {
                if v.take(4) == lit_null() {
                    assert(v.take(4)[0] == 0x6eu8 && v.take(4)[1] == 0x75u8 && v.take(4)[2]
                        == 0x6cu8 && v.take(4)[3] == 0x6cu8);
                }
            }
        }
    }
    match p_string(s, j4) {
        Some((tok, j5)) => Some((Some(tok), j5)),
        None => None,
    }
}

/// Decode a registration object from its canonical wire form.  The
/// decode succeeds exactly when the bytes match the grammar and all
/// three fields hold valid UTF-8.
pub fn decode_registration(raw: &[u8]) -> (r: Option<RegistrationData>)
    ensures
        match sp_registration(raw@) {
            Some(f) => if valid_utf8(f.0) && valid_utf8(f.1) && valid_utf8(f.2) {
                r is Some && r->0.name@ == f.0 && r->0.rel_url@ == f.1 && r->0.endpoint@ == f.2
            } else {
                r is None
            },
            None => r is None,
        },
{
    let key_name_b: [u8; 4] = [0x6e, 0x61, 0x6d, 0x65];
    let key_rel_url_b: [u8; 7] = [0x72, 0x65, 0x6c, 0x5f, 0x75, 0x72, 0x6c];
    let key_endpoint_b: [u8; 8] = [0x65, 0x6e, 0x64, 0x70, 0x6f, 0x69, 0x6e, 0x74];
    proof {
        assert(key_name_b@ =~= key_name());
        assert(key_rel_url_b@ =~= key_rel_url());
        assert(key_endpoint_b@ =~= key_endpoint());
        assert(raw@.skip(0) =~= raw@);
    }
    let s1 = match p_punct(raw, 0, 0x7b) {
        Some(j) => j,
        None => {
            return None;
        },
    };
    let (name_b, r1) = match p_member(raw, s1, key_name_b.as_slice()) {
        Some(p) => p,
        None => {
            return None;
        },
    };
    let s2 = match p_punct(raw, r1, 0x2c) {
        Some(j) => j,
        None => {
            return None;
        },
    };
    let (rel_b, r2) = match p_member(raw, s2, key_rel_url_b.as_slice()) {
        Some(p) => p,
        None => {
            return None;
        },
    };
    let s3 = match p_punct(raw, r2, 0x2c) {
        Some(j) => j,
        None => {
            return None;
        },
    };
    let (ep_b, r3) = match p_member(raw, s3, key_endpoint_b.as_slice()) {
        Some(p) => p,
        None => {
            return None;
        },
    };
    let r4 = match p_punct(raw, r3, 0x7d) {
        Some(j) => j,
        None => {
            return None;
        },
    };
    let r5 = p_ws(raw, r4);
    if r5 != raw.len() {
        proof {
            assert(sp_ws(raw@.skip(r4 as int)).len() == raw@.len() - r5);
        }
        return None;
    }
    proof {
        assert(sp_ws(raw@.skip(r4 as int)).len() == 0);
    }
    let name = match Text::decode_borrowed(name_b.as_slice()) {
        Some(t) => t,
        None => {
            return None;
        },
    };
    let rel_url = match Text::decode_borrowed(rel_b.as_slice()) {
        Some(t) => t,
        None => {
            return None;
        },
    };
    let endpoint = match Text::decode_borrowed(ep_b.as_slice()) {
        Some(t) => t,
        None => {
            return None;
        },
    };
    Some(RegistrationData { name, rel_url, endpoint })
}

/// Decode an answer object.  The decode succeeds exactly when the bytes
/// match the grammar and any token present holds valid UTF-8.
pub fn decode_response(raw: &[u8]) -> (r: Option<RegistrationResponse>)
    ensures
        match sp_response(raw@) {
            Some(tok) => match tok {
                Some(bytes) => if valid_utf8(bytes) {
                    r is Some && r->0.token is Some && r->0.token->0@ == bytes
                } else {
                    r is None
                },
                None => r is Some && r->0.token is None,
            },
            None => r is None,
        },
{
    proof {
        assert(raw@.skip(0) =~= raw@);
    }
    let s1 = match p_punct(raw, 0, 0x7b) {
        Some(j) => j,
        None => {
            return None;
        },
    };
    let t = p_ws(raw, s1);
    let n = raw.len();
    if t < n {
        let c = *vstd::slice::slice_index_get(raw, t);
        proof {
            assert(raw@.skip(t as int)[0] == c);
        }
        if c == 0x7d {
            proof {
                assert(raw@.skip(t as int).drop_first() =~= raw@.skip(t as int + 1));
            }
            let r2 = p_ws(raw, t + 1);
            if r2 == n {
                proof {
                    assert(sp_ws(raw@.skip(t as int + 1)).len() == 0);
                }
                return Some(RegistrationResponse { token: None });
            }
            proof {
                assert(sp_ws(raw@.skip(t as int + 1)).len() == n - r2);
            }
            return None;
        }
    }
    let (tok, r1) = match p_token_member(raw, s1) {
        Some(p) => p,
        None => {
            return None;
        },
    };
    let r2 = match p_punct(raw, r1, 0x7d) {
        Some(j) => j,
        None => {
            return None;
        },
    };
    let r3 = p_ws(raw, r2);
    if r3 != n {
        proof {
            assert(sp_ws(raw@.skip(r2 as int)).len() == n - r3);
        }
        return None;
    }
    proof {
        assert(sp_ws(raw@.skip(r2 as int)).len() == 0);
    }
    match tok {
        Some(tok_b) => match Text::decode_borrowed(tok_b.as_slice()) {
            Some(t) => Some(RegistrationResponse { token: Some(t) }),
            None => None,
        },
        None => Some(RegistrationResponse { token: None }),
    }
}

} // verus!
