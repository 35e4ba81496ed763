//! Request/response pipeline.
//!
//! The pipeline's computing half: building the outbound request (target,
//! headers, serialized payload) and interpreting the response (status
//! class, body decoding).  The exchange itself — connecting, writing the
//! request and draining the body — is I/O and stays outside the library,
//! which hands it an [`OutboundRequest`] of plain values and takes back
//! a status and the accumulated body bytes.

use crate::errors::{NaamioError, NaamioResult};
use crate::json::{encode_registration, encoded_registration, decode_response, sp_response};
use crate::text::Text;
use crate::types::{RegistrationData, RegistrationResponse};
use vstd::prelude::*;
use vstd::utf8::valid_utf8;

verus! {

/// The request methods the engine can issue.
#[derive(Debug, Clone, Copy, PartialEq, Eq, Structural)]
pub enum Method {
    Get,
    Post,
    Put,
    Delete,
}

impl Method {
    /// The method's name on the wire.
    pub fn name(&self) -> (r: &'static str)
        ensures
            match self {
                Method::Get => r@ == "GET"@,
                Method::Post => r@ == "POST"@,
                Method::Put => r@ == "PUT"@,
                Method::Delete => r@ == "DELETE"@,
            },
    {
        match self {
            Method::Get => "GET",
            Method::Post => "POST",
            Method::Put => "PUT",
            Method::Delete => "DELETE",
        }
    }
}

/// One header line: a name and a value.
#[derive(Debug, Clone, PartialEq, Eq)]
pub struct Header {
    pub name: Vec<u8>,
    pub value: Vec<u8>,
}

impl View for Header {
    type V = (Seq<u8>, Seq<u8>);

    open spec fn view(&self) -> (Seq<u8>, Seq<u8>) {
        (self.name@, self.value@)
    }
}

/// The headers as pairs of byte sequences.
pub open spec fn header_model(hs: Seq<Header>) -> Seq<(Seq<u8>, Seq<u8>)> {
    hs.map_values(|h: Header| h@)
}

/// The bytes of `Authorization`.
pub open spec fn authorization_name() -> Seq<u8> {
    seq![
        0x41u8, 0x75u8, 0x74u8, 0x68u8, 0x6fu8, 0x72u8, 0x69u8, 0x7au8, 0x61u8, 0x74u8, 0x69u8,
        0x6fu8, 0x6eu8,
    ]
}

/// The bytes of `Content-Type`.
pub open spec fn content_type_name() -> Seq<u8> {
    seq![0x43u8, 0x6fu8, 0x6eu8, 0x74u8, 0x65u8, 0x6eu8, 0x74u8, 0x2du8, 0x54u8, 0x79u8, 0x70u8, 0x65u8]
}

/// The bytes of `Content-Length`.
pub open spec fn content_length_name() -> Seq<u8> {
    seq![
        0x43u8, 0x6fu8, 0x6eu8, 0x74u8, 0x65u8, 0x6eu8, 0x74u8, 0x2du8, 0x4cu8, 0x65u8, 0x6eu8,
        0x67u8, 0x74u8, 0x68u8,
    ]
}

/// The bytes of `application/json`.
pub open spec fn content_type_json() -> Seq<u8> {
    seq![
        0x61u8, 0x70u8, 0x70u8, 0x6cu8, 0x69u8, 0x63u8, 0x61u8, 0x74u8, 0x69u8, 0x6fu8, 0x6eu8,
        0x2fu8, 0x6au8, 0x73u8, 0x6fu8, 0x6eu8,
    ]
}

/// The bytes of `Bearer ` (with its separating space).
pub open spec fn bearer_prefix() -> Seq<u8> {
    seq![0x42u8, 0x65u8, 0x61u8, 0x72u8, 0x65u8, 0x72u8, 0x20u8]
}

/// The decimal digits of `n`.
pub open spec fn dec_digits(n: nat) -> Seq<u8>
    decreases n,
{
    if n < 10 {
        seq![(0x30 + n) as u8]
    } else {
        dec_digits(n / 10) + seq![(0x30 + n % 10) as u8]
    }
}

/// Append the decimal digits of `n` to `out`.
pub fn push_dec(out: &mut Vec<u8>, n: u64)
    ensures
        final(out)@ == old(out)@ + dec_digits(n as nat),
    decreases n,
{
    if n < 10 {
        out.push(0x30 + n as u8);
        proof {
            assert(out@ =~= old(out)@ + dec_digits(n as nat));
        }
    } else {
        push_dec(out, n / 10);
        let d = (n % 10) as u8;
        out.push(0x30 + d);
        proof {
            assert(out@ =~= old(out)@ + (dec_digits((n / 10) as nat) + seq![(0x30 + n as nat
                % 10) as u8]));
        }
    }
}

/// A decimal digit byte.
pub open spec fn is_digit(b: u8) -> bool {
    0x30 <= b && b <= 0x39
}

/// All bytes are decimal digits.
pub open spec fn all_digits(s: Seq<u8>) -> bool {
    forall|i: int| 0 <= i < s.len() ==> is_digit(#[trigger] s[i])
}

/// The number the digit string names.
pub open spec fn dec_value(s: Seq<u8>) -> nat
    recommends
        all_digits(s),
    decreases s.len(),
{
    if s.len() == 0 {
        0
    } else {
        dec_value(s.drop_last()) * 10 + (s[s.len() - 1] - 0x30) as nat
    }
}

/// Longer digit prefixes name no smaller numbers.
proof fn lemma_dec_value_mono(s: Seq<u8>, j: int)
    requires
        all_digits(s),
        0 <= j <= s.len(),
    ensures
        dec_value(s.take(j)) <= dec_value(s),
    decreases s.len() - j,
{
    if j < s.len() {
        lemma_dec_value_mono(s, j + 1);
        assert(s.take(j + 1).drop_last() =~= s.take(j));
        assert(dec_value(s.take(j + 1)) == dec_value(s.take(j)) * 10 + (s[j] - 0x30) as nat);
        assert(dec_value(s.take(j)) * 10 >= dec_value(s.take(j)));
    } else {
        assert(s.take(j) =~= s);
    }
}

/// The digits the pipeline writes for a length name exactly that
/// length: what `dec_digits` emits, `dec_value` reads back.
pub proof fn lemma_dec_digits_value(n: nat)
    ensures
        dec_digits(n).len() > 0,
        all_digits(dec_digits(n)),
        dec_value(dec_digits(n)) == n,
    decreases n,
{
    if n < 10 {
        assert(dec_digits(n) =~= seq![(0x30 + n) as u8]);
        assert(dec_digits(n).drop_last() =~= Seq::<u8>::empty());
        assert(dec_value(Seq::<u8>::empty()) == 0);
        assert(((0x30 + n) as u8) as nat == 0x30 + n);
    } else {
        lemma_dec_digits_value(n / 10);
        let d = (0x30 + n % 10) as u8;
        assert(n % 10 < 10) by {
            vstd::arithmetic::div_mod::lemma_mod_bound(n as int, 10);
        }
        assert(d as nat == 0x30 + n % 10);
        assert(dec_digits(n) == dec_digits(n / 10) + seq![d]);
        assert(dec_digits(n).drop_last() =~= dec_digits(n / 10));
        assert(dec_digits(n)[dec_digits(n).len() - 1] == d);
        assert(dec_value(dec_digits(n)) == (n / 10) * 10 + n % 10);
        assert((n / 10) * 10 + n % 10 == n) by {
            vstd::arithmetic::div_mod::lemma_fundamental_div_mod(n as int, 10);
        }
        assert forall|i: int| 0 <= i < dec_digits(n).len() implies is_digit(
            #[trigger] dec_digits(n)[i],
        ) by {
            if i < dec_digits(n / 10).len() {
                assert(dec_digits(n)[i] == dec_digits(n / 10)[i]);
            }
        }
    }
}

/// Read a content-length value: the value of a nonempty digit string
/// that fits the counter, and nothing else.  The reactor uses it to
/// reserve capacity before draining a body.
pub fn parse_content_length(s: &[u8]) -> (r: Option<u64>)
    ensures
        r is Some <==> s@.len() > 0 && all_digits(s@) && dec_value(s@) <= u64::MAX,
        r matches Some(v) ==> v == dec_value(s@),
{
    let n = s.len();
    if n == 0 {
        return None;
    }
    let mut acc: u64 = 0;
    let mut i: usize = 0;
    proof {
        assert(s@.take(0) =~= Seq::<u8>::empty());
    }
    while i < n
        invariant
            i <= n,
            n == s@.len(),
            all_digits(s@.take(i as int)),
            acc == dec_value(s@.take(i as int)),
        decreases n - i,
    {
        let b = *vstd::slice::slice_index_get(s, i);
        if !(0x30 <= b && b <= 0x39) {
            proof {
                assert(!is_digit(s@[i as int]));
            }
            return None;
        }
        let d = (b - 0x30) as u64;
        let next = match acc.checked_mul(10) {
            Some(x) => x.checked_add(d),
            None => None,
        };
        proof {
            assert(s@.take(i as int + 1).drop_last() =~= s@.take(i as int));
            assert(dec_value(s@.take(i as int + 1)) == acc * 10 + d);
        }
        match next {
            Some(x) => {
                acc = x;
            },
            None => {
                // the value named so far already exceeds the counter
                proof {
                    if all_digits(s@) {
                        lemma_dec_value_mono(s@, i as int + 1);
                    }
                }
                return None;
            },
        }
        i = i + 1;
    }
    proof {
        assert(s@.take(n as int) =~= s@);
    }
    Some(acc)
}

/// The headers an outbound request carries: the bearer authorization
/// when a token is given, then, when a payload is present, its content
/// type and exact content length.
pub open spec fn expected_headers(bearer: Option<Seq<u8>>, body: Option<Seq<u8>>) -> Seq<
    (Seq<u8>, Seq<u8>),
> {
    (match bearer {
        Some(t) => seq![(authorization_name(), bearer_prefix() + t)],
        None => seq![],
    }) + (match body {
        Some(b) => seq![
            (content_type_name(), content_type_json()),
            (content_length_name(), dec_digits(b.len() as nat)),
        ],
        None => seq![],
    })
}

/// A fully built request: everything the reactor needs to perform one
/// exchange, as plain values.
#[derive(Debug, Clone, PartialEq, Eq)]
pub struct OutboundRequest {
    pub method: Method,
    pub target: Text,
    pub headers: Vec<Header>,
    pub body: Option<Vec<u8>>,
}

/// Build the outbound request for a resolved target: serialize the
/// payload when one is present, set the exact content headers for it,
/// and inject the bearer authorization when a token is given.
pub fn build_request(
    method: Method,
    target: &Text,
    payload: Option<&RegistrationData>,
    bearer: Option<&Text>,
) -> (r: OutboundRequest)
    ensures
        r.method == method,
        r.target@ == target@,
        match payload {
            Some(d) => r.body matches Some(b) && b@ == encoded_registration(
                d.name@,
                d.rel_url@,
                d.endpoint@,
            ),
            None => r.body is None,
        },
        header_model(r.headers@) == expected_headers(
            match bearer {
                Some(t) => Some(t@),
                None => None,
            },
            match payload {
                Some(d) => Some(encoded_registration(d.name@, d.rel_url@, d.endpoint@)),
                None => None,
            },
        ),
{
    let mut headers: Vec<Header> = Vec::new();
    if let Some(token) = bearer {
        let name_b: [u8; 13] = [
            0x41, 0x75, 0x74, 0x68, 0x6f, 0x72, 0x69, 0x7a, 0x61, 0x74, 0x69, 0x6f, 0x6e,
        ];
        let prefix_b: [u8; 7] = [0x42, 0x65, 0x61, 0x72, 0x65, 0x72, 0x20];
        proof {
            assert(name_b@ =~= authorization_name());
            assert(prefix_b@ =~= bearer_prefix());
        }
        let mut value = vstd::slice::slice_to_vec(prefix_b.as_slice());
        crate::bytes::push_all(&mut value, token.encode_for_export());
        headers.push(Header { name: vstd::slice::slice_to_vec(name_b.as_slice()), value });
    }
    let body: Option<Vec<u8>> = match payload {
        Some(d) => {
            let bytes = encode_registration(d);
            let ct_name_b: [u8; 12] = [
                0x43, 0x6f, 0x6e, 0x74, 0x65, 0x6e, 0x74, 0x2d, 0x54, 0x79, 0x70, 0x65,
            ];
            let ct_json_b: [u8; 16] = [
                0x61, 0x70, 0x70, 0x6c, 0x69, 0x63, 0x61, 0x74, 0x69, 0x6f, 0x6e, 0x2f, 0x6a,
                0x73, 0x6f, 0x6e,
            ];
            let cl_name_b: [u8; 14] = [
                0x43, 0x6f, 0x6e, 0x74, 0x65, 0x6e, 0x74, 0x2d, 0x4c, 0x65, 0x6e, 0x67, 0x74,
                0x68,
            ];
            proof {
                assert(ct_name_b@ =~= content_type_name());
                assert(ct_json_b@ =~= content_type_json());
                assert(cl_name_b@ =~= content_length_name());
            }
            headers.push(
                Header {
                    name: vstd::slice::slice_to_vec(ct_name_b.as_slice()),
                    value: vstd::slice::slice_to_vec(ct_json_b.as_slice()),
                },
            );
            let mut cl_value: Vec<u8> = Vec::new();
            push_dec(&mut cl_value, bytes.len() as u64);
            headers.push(
                Header { name: vstd::slice::slice_to_vec(cl_name_b.as_slice()), value: cl_value },
            );
            Some(bytes)
        },
        None => None,
    };
    let r = OutboundRequest { method, target: target.clone(), headers, body };
    proof {
        assert(header_model(r.headers@) =~= expected_headers(
            match bearer {
                Some(t) => Some(t@),
                None => None,
            },
            match payload {
                Some(d) => Some(encoded_registration(d.name@, d.rel_url@, d.endpoint@)),
                None => None,
            },
        ));
    }
    r
}

/// The success class of an HTTP status.
pub open spec fn is_success_status(status: u16) -> bool {
    200 <= status < 300
}

/// Executable form of `is_success_status`.
pub fn status_is_success(status: u16) -> (r: bool)
    ensures
        r == is_success_status(status),
{
    200 <= status && status < 300
}

// ---------------------------------------------------------------------
// The response head: the status line and the header lines, as the
// reactor reads them off the wire before draining the body.  Lines are
// separated by a line feed, each stripped of one trailing carriage
// return.
// ---------------------------------------------------------------------

/// Split off the first line: the bytes before the first line feed, and
/// what follows it (everything, and nothing, when no line feed is left).
pub open spec fn sp_line_split(s: Seq<u8>) -> (Seq<u8>, Seq<u8>)
    decreases s.len(),
{
    if s.len() == 0 {
        (seq![], seq![])
    } else if s[0] == 0x0a {
        (seq![], s.drop_first())
    } else {
        let p = sp_line_split(s.drop_first());
        (seq![s[0]] + p.0, p.1)
    }
}

/// What a line split leaves is strictly shorter than a nonempty input.
proof fn lemma_sp_line_split_len(s: Seq<u8>)
    requires
        s.len() > 0,
    ensures
        sp_line_split(s).1.len() < s.len(),
    decreases s.len(),
{
    if s[0] != 0x0a {
        if s.len() > 1 {
            lemma_sp_line_split_len(s.drop_first());
        } else {
            assert(s.drop_first().len() == 0);
            assert(sp_line_split(s.drop_first()).1 =~= Seq::<u8>::empty());
        }
    }
}

/// One trailing carriage return removed.
pub open spec fn strip_cr(line: Seq<u8>) -> Seq<u8> {
    if line.len() > 0 && line[line.len() - 1] == 0x0d {
        line.drop_last()
    } else {
        line
    }
}

/// Split off the segment before the first `sep` byte and the remainder
/// after it; `None` when the byte does not occur.
pub open spec fn sp_until(s: Seq<u8>, sep: u8) -> Option<(Seq<u8>, Seq<u8>)>
    decreases s.len(),
{
    if s.len() == 0 {
        None
    } else if s[0] == sep {
        Some((seq![], s.drop_first()))
    } else {
        match sp_until(s.drop_first(), sep) {
            Some(p) => Some((seq![s[0]] + p.0, p.1)),
            None => None,
        }
    }
}

/// The status a status line carries: the digits of its second field.
pub open spec fn sp_status_code(line: Seq<u8>) -> Option<u16> {
    match sp_until(line, 0x20) {
        Some(v) => {
            let code = match sp_until(v.1, 0x20) {
                Some(c) => c.0,
                None => v.1,
            };
            if code.len() > 0 && all_digits(code) && dec_value(code) <= 0xffff {
                Some(dec_value(code) as u16)
            } else {
                None
            }
        },
        None => None,
    }
}

/// The name and value a header line carries: the bytes before the first
/// colon, and the bytes after it less one leading space.  A line without
/// a colon carries none.
pub open spec fn sp_header_field(line: Seq<u8>) -> Option<(Seq<u8>, Seq<u8>)> {
    match sp_until(line, 0x3a) {
        Some(p) => Some(
            (
                p.0,
                if p.1.len() > 0 && p.1[0] == 0x20 {
                    p.1.drop_first()
                } else {
                    p.1
                },
            ),
        ),
        None => None,
    }
}

/// The header fields the lines of `s` carry, in order; lines without a
/// colon are passed over.
pub open spec fn sp_head_fields(s: Seq<u8>) -> Seq<(Seq<u8>, Seq<u8>)>
    decreases s.len(),
    via sp_head_fields_decreases
{
    if s.len() == 0 {
        seq![]
    } else {
        let p = sp_line_split(s);
        let rest = sp_head_fields(p.1);
        match sp_header_field(strip_cr(p.0)) {
            Some(f) => seq![f] + rest,
            None => rest,
        }
    }
}

#[via_fn]
proof fn sp_head_fields_decreases(s: Seq<u8>) {
    if s.len() > 0 {
        lemma_sp_line_split_len(s);
    }
}

/// What a whole response head means: the status of its first line and
/// the header fields of the remaining lines.
pub open spec fn sp_head(s: Seq<u8>) -> Option<(u16, Seq<(Seq<u8>, Seq<u8>)>)> {
    let p = sp_line_split(s);
    match sp_status_code(strip_cr(p.0)) {
        Some(code) => Some((code, sp_head_fields(p.1))),
        None => None,
    }
}

/// Split off the first line from `i` on.
fn p_line(s: &[u8], i: usize) -> (r: (Vec<u8>, usize))
    requires
        i <= s@.len(),
    ensures
        ({
            let p = sp_line_split(s@.skip(i as int));
            &&& r.0@ == p.0
            &&& i <= r.1 <= s@.len()
            &&& s@.skip(r.1 as int) == p.1
            &&& i < s@.len() ==> r.1 > i
        }),
    decreases s@.len() - i,
{
    let n = s.len();
    if i >= n {
        proof {
            assert(s@.skip(i as int) =~= Seq::<u8>::empty());
        }
        return (Vec::new(), i);
    }
    let b = *vstd::slice::slice_index_get(s, i);
    proof {
        assert(s@.skip(i as int)[0] == b);
        assert(s@.skip(i as int).drop_first() =~= s@.skip(i as int + 1));
    }
    if b == 0x0a {
        return (Vec::new(), i + 1);
    }
    let (line, j) = p_line(s, i + 1);
    let mut line = line;
    let ghost tail = line@;
    line.insert(0, b);
    proof {
        assert(line@ =~= seq![b] + tail);
    }
    (line, j)
}

/// Remove one trailing carriage return.
fn strip_cr_vec(line: &mut Vec<u8>)
    ensures
        final(line)@ == strip_cr(old(line)@),
{
    let n = line.len();
    if n > 0 && *vstd::slice::slice_index_get(line.as_slice(), n - 1) == 0x0d {
        line.pop();
        proof {
            assert(line@ =~= old(line)@.drop_last());
        }
    }
}

/// Split off the segment before the first `sep` byte from `i` on.
fn p_until(s: &[u8], i: usize, sep: u8) -> (r: Option<(Vec<u8>, usize)>)
    requires
        i <= s@.len(),
    ensures
        match r {
            Some(p) => i <= p.1 <= s@.len() && sp_until(s@.skip(i as int), sep) == Some(
                (p.0@, s@.skip(p.1 as int)),
            ),
            None => sp_until(s@.skip(i as int), sep) is None,
        },
    decreases s@.len() - i,
{
    let n = s.len();
    if i >= n {
        proof {
            assert(s@.skip(i as int) =~= Seq::<u8>::empty());
        }
        return None;
    }
    let b = *vstd::slice::slice_index_get(s, i);
    proof {
        assert(s@.skip(i as int)[0] == b);
        assert(s@.skip(i as int).drop_first() =~= s@.skip(i as int + 1));
    }
    if b == sep {
        return Some((Vec::new(), i + 1));
    }
    match p_until(s, i + 1, sep) {
        Some((seg, j)) => {
            let mut seg = seg;
            let ghost tail = seg@;
            seg.insert(0, b);
            proof {
                assert(seg@ =~= seq![b] + tail);
            }
            Some((seg, j))
        },
        None => None,
    }
}

/// Read the status of a status line.
fn p_status_code(line: &[u8]) -> (r: Option<u16>)
    ensures
        r == sp_status_code(line@),
{
    proof {
        assert(line@.skip(0) =~= line@);
    }
    let after_version = match p_until(line, 0, 0x20) {
        Some((_, j)) => j,
        None => {
            return None;
        },
    };
    let n = line.len();
    let code: Vec<u8> = match p_until(line, after_version, 0x20) {
        Some((c, _)) => c,
        None => {
            proof {
                assert(line@.skip(after_version as int) =~= line@.subrange(
                    after_version as int,
                    n as int,
                ));
            }
            vstd::slice::slice_to_vec(
                vstd::slice::slice_subrange(line, after_version, n),
            )
        },
    };
    match parse_content_length(code.as_slice()) {
        Some(v) => if v <= 0xffff {
            Some(v as u16)
        } else {
            None
        },
        None => None,
    }
}

/// Read the name and value of a header line.
fn p_header_field(line: &[u8]) -> (r: Option<(Vec<u8>, Vec<u8>)>)
    ensures
        match r {
            Some(p) => sp_header_field(line@) == Some((p.0@, p.1@)),
            None => sp_header_field(line@) is None,
        },
{
    proof {
        assert(line@.skip(0) =~= line@);
    }
    let (name, j) = match p_until(line, 0, 0x3a) {
        Some(p) => p,
        None => {
            return None;
        },
    };
    let n = line.len();
    let ghost after = line@.skip(j as int);
    let start = if j < n && *vstd::slice::slice_index_get(line, j) == 0x20 {
        proof {
            assert(after[0] == line@[j as int]);
            assert(after.drop_first() =~= line@.subrange(j as int + 1, n as int));
        }
        j + 1
    } else {
        proof {
            assert(after =~= line@.subrange(j as int, n as int));
        }
        j
    };
    let value = vstd::slice::slice_to_vec(vstd::slice::slice_subrange(line, start, n));
    Some((name, value))
}

/// Read a whole response head, as handed over by the reactor: the bytes
/// before the blank line that ends the head.
pub fn parse_response_head(head: &[u8]) -> (r: Option<(u16, Vec<Header>)>)
    ensures
        match r {
            Some(p) => sp_head(head@) matches Some(h) && h.0 == p.0 && h.1 == header_model(
                p.1@,
            ),
            None => sp_head(head@) is None,
        },
{
    proof {
        assert(head@.skip(0) =~= head@);
    }
    let n = head.len();
    let (line0, i0) = p_line(head, 0);
    let mut line0 = line0;
    strip_cr_vec(&mut line0);
    let code = match p_status_code(line0.as_slice()) {
        Some(c) => c,
        None => {
            return None;
        },
    };
    let mut headers: Vec<Header> = Vec::new();
    let mut i = i0;
    proof {
        assert(header_model(headers@) =~= Seq::<(Seq<u8>, Seq<u8>)>::empty());
        assert(header_model(headers@) + sp_head_fields(head@.skip(i0 as int)) =~= sp_head_fields(
            head@.skip(i0 as int),
        ));
    }
    while i < n
        invariant
            i0 <= i <= n,
            n == head@.len(),
            sp_head_fields(head@.skip(i0 as int)) == header_model(headers@) + sp_head_fields(
                head@.skip(i as int),
            ),
        decreases n - i,
    {
        let ghost at_line = head@.skip(i as int);
        let (line, j) = p_line(head, i);
        let mut line = line;
        strip_cr_vec(&mut line);
        let ghost before = header_model(headers@);
        match p_header_field(line.as_slice()) {
            Some((name, value)) => {
                let ghost field = (name@, value@);
                headers.push(Header { name, value });
                proof {
                    assert(header_model(headers@) =~= before + seq![field]);
                    assert(sp_head_fields(at_line) =~= seq![field] + sp_head_fields(
                        head@.skip(j as int),
                    ));
                    assert(before + sp_head_fields(at_line) =~= (before + seq![field])
                        + sp_head_fields(head@.skip(j as int)));
                }
            },
            None => {
                proof {
                    assert(sp_head_fields(at_line) =~= sp_head_fields(head@.skip(j as int)));
                }
            },
        }
        i = j;
    }
    proof {
        assert(head@.skip(n as int) =~= Seq::<u8>::empty());
        assert(sp_head_fields(head@.skip(n as int)) =~= Seq::<(Seq<u8>, Seq<u8>)>::empty());
        assert(sp_head_fields(head@.skip(i0 as int)) =~= header_model(headers@));
    }
    Some((code, headers))
}

/// Interpret a completed exchange: on a success status the body must
/// decode as an answer object; on any other status the exchange failed
/// remotely, and the status and raw body are carried in the error.
pub fn interpret_response(status: u16, body: &[u8]) -> (r: NaamioResult<RegistrationResponse>)
    ensures
        is_success_status(status) ==> match sp_response(body@) {
            Some(tok) => match tok {
                Some(bytes) => if valid_utf8(bytes) {
                    r matches Ok(resp) && resp.token matches Some(t) && t@ == bytes
                } else {
                    r matches Err(e) && e is Serialization
                },
                None => r matches Ok(resp) && resp.token is None,
            },
            None => r matches Err(e) && e is Serialization,
        },
        !is_success_status(status) ==> (r matches Err(e) && e matches NaamioError::Remote(s, b)
            && s == status && b@ == body@),
{
    if status_is_success(status) {
        match decode_response(body) {
            Some(resp) => Ok(resp),
            None => Err(NaamioError::Serialization("cannot decode response body".to_owned())),
        }
    } else {
        Err(NaamioError::Remote(status, vstd::slice::slice_to_vec(body)))
    }
}

} // verus!
