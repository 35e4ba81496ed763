//! Target resolution and the process-wide base address.
//!
//! A request target is either absolute, used verbatim, or relative, in
//! which case it is appended to the configured base address.  The base
//! address is explicit configuration state: reconfiguration validates
//! the new value and leaves the old one untouched on any failure.  The
//! process wraps one [`BaseAddress`] value in a reader/writer lock.

use crate::errors::{NaamioError, NaamioResult};
use crate::text::{strip_trailing_byte, Text};
use vstd::prelude::*;
use vstd::slice::slice_index_get;
use vstd::utf8::valid_utf8;

verus! {

/// Whether the URI parser accepts these bytes.  The outcome is fixed by
/// the bytes alone; what it is for given bytes is known only by calling
/// the parser.
pub uninterp spec fn uri_parse_ok(s: Seq<u8>) -> bool;

#[verifier::external_type_specification]
#[verifier::external_body]
pub struct ExUri(http::Uri);

#[verifier::external_type_specification]
#[verifier::external_body]
pub struct ExInvalidUri(http::uri::InvalidUri);

/// Relies on `http::Uri`'s byte parser (`TryFrom<&[u8]> for Uri`,
/// `Uri::from_shared`): it returns `Ok` exactly on byte strings that
/// form a syntactically valid URI reference, never panics, and its
/// outcome depends on the bytes alone.
#[verifier::external_body]
fn parse_uri(raw: &[u8]) -> (r: Result<http::Uri, http::uri::InvalidUri>)
    ensures
        r is Ok <==> uri_parse_ok(raw@),
{
    http::Uri::try_from(raw)
}

/// A byte a URI scheme may contain after its first letter.
pub open spec fn is_scheme_byte(b: u8) -> bool {
    (0x41 <= b && b <= 0x5a) || (0x61 <= b && b <= 0x7a) || (0x30 <= b && b <= 0x39) || b == 0x2b
        || b == 0x2d || b == 0x2e
}

/// An ASCII letter.
pub open spec fn is_alpha(b: u8) -> bool {
    (0x41 <= b && b <= 0x5a) || (0x61 <= b && b <= 0x7a)
}

/// The bytes split as `scheme "://" remainder` at position `k`, with a
/// well-formed scheme and a nonempty remainder.
pub open spec fn is_scheme_split(s: Seq<u8>, k: int) -> bool {
    &&& 1 <= k
    &&& k + 3 < s.len()
    &&& s[k] == 0x3a && s[k + 1] == 0x2f && s[k + 2] == 0x2f
    &&& is_alpha(s[0])
    &&& forall|j: int| 0 <= j < k ==> is_scheme_byte(s[j])
}

/// The library's notion of an absolute URL prefix: a scheme, `://`, and
/// a nonempty remainder.
pub open spec fn is_absolute_prefix(s: Seq<u8>) -> bool {
    exists|k: int| is_scheme_split(s, k)
}

/// What reconfiguration accepts: bytes the URI parser takes that also
/// form an absolute URL prefix.
pub open spec fn valid_base(s: Seq<u8>) -> bool {
    uri_parse_ok(s) && is_absolute_prefix(s)
}

/// Decide `is_absolute_prefix` for a byte view.
pub fn absolute_prefix_check(s: &[u8]) -> (r: bool)
    ensures
        r == is_absolute_prefix(s@),
{
    let n = s.len();
    if n == 0 {
        proof {
            assert forall|k: int| !is_scheme_split(s@, k) by {}
        }
        return false;
    }
    let b0 = *slice_index_get(s, 0);
    if !((0x41 <= b0 && b0 <= 0x5a) || (0x61 <= b0 && b0 <= 0x7a)) {
        proof {
            assert forall|k: int| !is_scheme_split(s@, k) by {}
        }
        return false;
    }
    let mut k: usize = 1;
    while k < n && is_scheme_byte_ex(*slice_index_get(s, k))
        invariant
            1 <= k <= n,
            n == s@.len(),
            is_alpha(s@[0]),
            forall|j: int| 0 <= j < k ==> is_scheme_byte(s@[j]),
        decreases n - k,
    {
        k = k + 1;
    }
    if k == n {
        // every byte is a scheme byte, so no split position holds a colon
        proof {
            assert forall|c: int| !is_scheme_split(s@, c) by {
                if 1 <= c < n {
                    assert(is_scheme_byte(s@[c]));
                }
            }
        }
        return false;
    }
    // `k` is the first position whose byte cannot extend the scheme
    let bk = *slice_index_get(s, k);
    let ok = bk == 0x3a && n - k > 3 && *slice_index_get(s, k + 1) == 0x2f && *slice_index_get(
        s,
        k + 2,
    ) == 0x2f;
    proof {
        if ok {
            assert(is_scheme_split(s@, k as int));
        } else {
            assert forall|c: int| !is_scheme_split(s@, c) by {
                if is_scheme_split(s@, c) {
                    if c < k {
                        assert(is_scheme_byte(s@[c]));
                    } else if c > k {
                        assert(is_scheme_byte(s@[k as int]));
                    }
                }
            }
        }
    }
    ok
}

fn is_scheme_byte_ex(b: u8) -> (r: bool)
    ensures
        r == is_scheme_byte(b),
{
    (0x41 <= b && b <= 0x5a) || (0x61 <= b && b <= 0x7a) || (0x30 <= b && b <= 0x39) || b == 0x2b
        || b == 0x2d || b == 0x2e
}

/// The process-wide base address: always an absolute URL prefix with no
/// trailing path separator.
#[derive(Debug, PartialEq, Eq)]
pub struct BaseAddress {
    addr: Text,
}

impl Clone for BaseAddress {
    fn clone(&self) -> (r: Self)
        ensures
            r@ == self@,
    {
        proof {
            use_type_invariant(self);
        }
        BaseAddress { addr: self.addr.clone() }
    }
}

impl View for BaseAddress {
    type V = Seq<u8>;

    closed spec fn view(&self) -> Seq<u8> {
        self.addr@
    }
}

impl BaseAddress {
    /// The type invariant: an absolute URL prefix, not ending in `/`.
    #[verifier::type_invariant]
    spec fn wf(self) -> bool {
        is_absolute_prefix(self.addr@) && self.addr@[self.addr@.len() - 1] != 0x2f
    }

    /// The default address, `http://localhost:8000`.
    pub fn new() -> (r: BaseAddress)
        ensures
            r@ == default_address(),
    {
        let bytes: [u8; 21] = [
            0x68, 0x74, 0x74, 0x70, 0x3a, 0x2f, 0x2f, 0x6c, 0x6f, 0x63, 0x61, 0x6c, 0x68, 0x6f,
            0x73, 0x74, 0x3a, 0x38, 0x30, 0x30, 0x30,
        ];
        proof {
            assert(bytes@ =~= default_address());
        }
        let v = vstd::slice::slice_to_vec(bytes.as_slice());
        let addr = Text::from_ascii(v);
        proof {
            assert(is_scheme_split(addr@, 4));
        }
        BaseAddress { addr }
    }

    /// Read the configured address.
    pub fn address(&self) -> (r: &Text)
        ensures
            r@ == self@,
    {
        &self.addr
    }
}

/// The bytes of `http://localhost:8000`.
pub open spec fn default_address() -> Seq<u8> {
    seq![
        0x68u8, 0x74u8, 0x74u8, 0x70u8, 0x3au8, 0x2fu8, 0x2fu8, 0x6cu8, 0x6fu8, 0x63u8, 0x61u8,
        0x6cu8, 0x68u8, 0x6fu8, 0x73u8, 0x74u8, 0x3au8, 0x38u8, 0x30u8, 0x30u8, 0x30u8,
    ]
}

/// Reconfigure the base address from an externally-owned byte view.
///
/// The view must decode as UTF-8 and, after every trailing `/` is
/// stripped, pass the URI parser and form an absolute URL prefix; then
/// the stripped form is stored.  On any failure the previous address is
/// left unchanged, and the caller logs the rejection.
pub fn set_base_address(cfg: &mut BaseAddress, raw: &[u8]) -> (r: bool)
    ensures
        r <==> valid_utf8(raw@) && valid_base(strip_trailing_byte(raw@, 0x2f)),
        r ==> final(cfg)@ == strip_trailing_byte(raw@, 0x2f),
        !r ==> final(cfg)@ == old(cfg)@,
{
    let text = match Text::decode_borrowed(raw) {
        Some(t) => t,
        None => {
            return false;
        },
    };
    let stripped = text.strip_trailing(0x2f);
    let stripped_bytes = stripped.encode_for_export();
    if !absolute_prefix_check(stripped_bytes) {
        return false;
    }
    if parse_uri(stripped_bytes).is_err() {
        return false;
    }
    proof {
        crate::text::lemma_strip_trailing_last(raw@, 0x2f);
        assert(stripped@.len() > 0);
    }
    cfg.addr = stripped;
    true
}

/// `Url` builds request targets.
pub struct Url;

impl Url {
    /// Resolve a relative path against the configured base address by
    /// concatenation; the result must pass the URI parser.
    pub fn relative(base: &BaseAddress, rel_url: &Text) -> (r: NaamioResult<Text>)
        ensures
            r is Ok <==> uri_parse_ok(base@ + rel_url@),
            r is Ok ==> r->Ok_0@ == base@ + rel_url@,
            r is Err ==> r->Err_0 is AddressSyntax,
    {
        let joined = base.address().concat(rel_url);
        Self::absolute(&joined)
    }

    /// Validate an absolute target, used verbatim.
    pub fn absolute(url: &Text) -> (r: NaamioResult<Text>)
        ensures
            r is Ok <==> uri_parse_ok(url@),
            r is Ok ==> r->Ok_0@ == url@,
            r is Err ==> r->Err_0 is AddressSyntax,
    {
        match parse_uri(url.encode_for_export()) {
            Ok(_) => Ok(url.clone()),
            Err(_) => Err(NaamioError::AddressSyntax("malformed URL".to_owned())),
        }
    }

    /// Resolve a target: one that starts with `/` is relative to the
    /// base address, any other is taken verbatim.
    pub fn resolve(base: &BaseAddress, target: &Text) -> (r: NaamioResult<Text>)
        ensures
            ({
                let t = resolved_target(base@, target@);
                &&& r is Ok <==> uri_parse_ok(t)
                &&& r is Ok ==> r->Ok_0@ == t
                &&& r is Err ==> r->Err_0 is AddressSyntax
            }),
    {
        let bytes = target.encode_for_export();
        if bytes.len() > 0 && *slice_index_get(bytes, 0) == 0x2f {
            Url::relative(base, target)
        } else {
            Url::absolute(target)
        }
    }
}

/// Where a request aims: a target starting with `/` is appended to the
/// base address, any other target stands alone.
pub open spec fn resolved_target(base: Seq<u8>, target: Seq<u8>) -> Seq<u8> {
    if target.len() > 0 && target[0] == 0x2f {
        base + target
    } else {
        target
    }
}

/// For every address that reconfiguration accepts, the stored value is
/// the given one with every trailing path separator stripped, it is
/// nonempty and does not end in `/`, and a relative submission's target
/// is exactly the stored address followed by the relative path: the
/// concatenation introduces no separator of its own, so no double slash
/// arises beyond what the two parts themselves carry.
pub proof fn lemma_configured_target(raw: Seq<u8>, rel_url: Seq<u8>)
    ensures
        valid_utf8(raw) && valid_base(strip_trailing_byte(raw, 0x2f)) ==> ({
            let stored = strip_trailing_byte(raw, 0x2f);
            &&& stored.len() > 0
            &&& stored[stored.len() - 1] != 0x2f
            &&& (rel_url.len() > 0 && rel_url[0] == 0x2f ==> resolved_target(stored, rel_url)
                == stored + rel_url)
        }),
{
    let stored = strip_trailing_byte(raw, 0x2f);
    crate::text::lemma_strip_trailing_last(raw, 0x2f);
    if valid_base(stored) {
        let k = choose|k: int| is_scheme_split(stored, k);
        assert(stored.len() > k + 3);
    }
}

} // verus!
