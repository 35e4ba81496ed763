//! Boundary text codec.
//!
//! Externally-owned byte views cross into the engine through this module.
//! [`Text`] is the one internal text type: a byte buffer that is always a
//! valid UTF-8 encoding.  `decode_borrowed` validates a view strictly,
//! `decode_owned` decodes it lossily (each maximal ill-formed subsequence
//! becomes one U+FFFD replacement character, as `String::from_utf8_lossy`
//! substitutes), and `encode_for_export` hands the owned bytes back out
//! as a borrowed view.

use vstd::prelude::*;
use vstd::slice::{slice_index_get, slice_subrange, slice_to_vec};
use vstd::utf8::{
    length_of_first_scalar, pop_first_scalar, take_first_scalar, valid_first_scalar, valid_utf8,
};

verus! {

broadcast use vstd::utf8::group_utf8_lib;

/// The bytes of one U+FFFD replacement character.
pub open spec fn replacement_bytes() -> Seq<u8> {
    seq![0xefu8, 0xbfu8, 0xbdu8]
}

/// Whether `b1` may continue a scalar encoding led by `b0`: the plain
/// continuation range, narrowed after the leads whose encodings would
/// otherwise be overlong (`E0`, `F0`), surrogates (`ED`) or beyond
/// U+10FFFF (`F4`).
pub open spec fn second_byte_ok(b0: u8, b1: u8) -> bool
    recommends
        0xc2 <= b0 <= 0xf4,
{
    if b0 == 0xe0 {
        0xa0 <= b1 <= 0xbf
    } else if b0 == 0xed {
        0x80 <= b1 <= 0x9f
    } else if b0 == 0xf0 {
        0x90 <= b1 <= 0xbf
    } else if b0 == 0xf4 {
        0x80 <= b1 <= 0x8f
    } else {
        0x80 <= b1 <= 0xbf
    }
}

/// How many bytes the maximal ill-formed subsequence at the front of `s`
/// spans: the longest prefix of `s` that is a proper prefix of some
/// well-formed scalar encoding, and at least the first byte.  This is
/// the subsequence that lossy decoding replaces with one U+FFFD.
pub open spec fn ill_formed_prefix_len(s: Seq<u8>) -> int
    recommends
        s.len() > 0,
        !valid_first_scalar(s),
{
    if s.len() < 2 || !(0xc2 <= s[0] <= 0xf4) || !second_byte_ok(s[0], s[1]) {
        1
    } else if s[0] <= 0xdf || s.len() < 3 || !vstd::utf8::is_continuation_byte(s[2]) {
        2
    } else {
        3
    }
}

/// Lossy decoding of an arbitrary byte view: well-formed scalar encodings
/// are kept as they are; each maximal ill-formed subsequence is replaced
/// by one U+FFFD, as `String::from_utf8_lossy` substitutes.
pub open spec fn utf8_lossy(s: Seq<u8>) -> Seq<u8>
    decreases s.len(),
{
    if s.len() == 0 {
        seq![]
    } else if valid_first_scalar(s) {
        take_first_scalar(s) + utf8_lossy(pop_first_scalar(s))
    } else {
        replacement_bytes() + utf8_lossy(s.skip(ill_formed_prefix_len(s)))
    }
}

/// Internally-owned, validated text: the byte buffer is always valid UTF-8.
#[derive(Debug, PartialEq, Eq)]
pub struct Text {
    bytes: Vec<u8>,
}

impl Clone for Text {
    fn clone(&self) -> (r: Self)
        ensures
            r@ == self@,
    {
        proof {
            use_type_invariant(self);
        }
        Text { bytes: crate::bytes::clone_bytes(&self.bytes) }
    }
}

impl View for Text {
    type V = Seq<u8>;

    closed spec fn view(&self) -> Seq<u8> {
        self.bytes@
    }
}

impl Text {
    /// The type invariant: every `Text` value holds a valid UTF-8 encoding.
    #[verifier::type_invariant]
    spec fn wf(self) -> bool {
        valid_utf8(self.bytes@)
    }

    /// The empty text.
    pub fn empty() -> (r: Text)
        ensures
            r@ == Seq::<u8>::empty(),
    {
        Text { bytes: Vec::new() }
    }

    pub fn len(&self) -> (r: usize)
        ensures
            r == self@.len(),
    {
        self.bytes.len()
    }

    /// Strict decoding of an externally-owned byte view: the view is copied
    /// into owned storage exactly when it is valid UTF-8.
    pub fn decode_borrowed(raw: &[u8]) -> (r: Option<Text>)
        ensures
            r is Some <==> valid_utf8(raw@),
            r is Some ==> r->Some_0@ == raw@,
    {
        if utf8_check(raw) {
            Some(Text { bytes: slice_to_vec(raw) })
        } else {
            None
        }
    }

    /// Lossy decoding of an externally-owned byte view; always succeeds.
    pub fn decode_owned(raw: &[u8]) -> (r: Text)
        ensures
            r@ == utf8_lossy(raw@),
            valid_utf8(raw@) ==> r@ == raw@,
    {
        proof {
            lemma_utf8_lossy_valid(raw@);
            lemma_utf8_lossy_identity(raw@);
        }
        let mut out: Vec<u8> = Vec::new();
        let n = raw.len();
        let mut i: usize = 0;
        proof {
            assert(raw@.subrange(0, n as int) =~= raw@);
            assert(out@ + utf8_lossy(raw@) =~= utf8_lossy(raw@));
        }
        while i < n
            invariant
                i <= n,
                n == raw@.len(),
                utf8_lossy(raw@) == out@ + utf8_lossy(raw@.subrange(i as int, n as int)),
            decreases n - i,
        {
            let ghost suf = raw@.subrange(i as int, n as int);
            match scalar_len_at(raw, i) {
                Some(l) => {
                    proof {
                        assert(take_first_scalar(suf) =~= raw@.subrange(
                            i as int,
                            i as int + l as int,
                        ));
                        assert(pop_first_scalar(suf) =~= raw@.subrange(
                            i as int + l as int,
                            n as int,
                        ));
                        assert(out@ + utf8_lossy(suf) =~= (out@ + take_first_scalar(suf))
                            + utf8_lossy(pop_first_scalar(suf)));
                    }
                    let piece = slice_subrange(raw, i, i + l);
                    crate::bytes::push_all(&mut out, piece);
                    i = i + l;
                },
                None => {
                    let l = ill_prefix_len_at(raw, i);
                    proof {
                        assert(suf.skip(ill_formed_prefix_len(suf)) =~= raw@.subrange(
                            i as int + l as int,
                            n as int,
                        ));
                        assert(out@ + utf8_lossy(suf) =~= (out@ + replacement_bytes())
                            + utf8_lossy(suf.skip(ill_formed_prefix_len(suf))));
                    }
                    let ghost prev = out@;
                    out.push(0xef);
                    out.push(0xbf);
                    out.push(0xbd);
                    proof {
                        assert(out@ =~= prev + replacement_bytes());
                    }
                    i = i + l;
                },
            }
        }
        proof {
            assert(raw@.subrange(n as int, n as int) =~= Seq::<u8>::empty());
            assert(out@ =~= utf8_lossy(raw@));
        }
        Text { bytes: out }
    }

    /// A byte view of the owned text, valid only as long as `self` is alive.
    /// The caller must not retain it past that lifetime and must not free it.
    pub fn encode_for_export(&self) -> (r: &[u8])
        ensures
            r@ == self@,
    {
        self.bytes.as_slice()
    }

    /// Build text from bytes that are all ASCII.
    pub fn from_ascii(bytes: Vec<u8>) -> (r: Text)
        requires
            forall|i: int| 0 <= i < bytes@.len() ==> bytes@[i] < 0x80,
        ensures
            r@ == bytes@,
    {
        proof {
            lemma_ascii_valid(bytes@);
        }
        Text { bytes }
    }

    /// Build text from bytes already known to form a valid encoding.
    pub fn from_utf8(bytes: Vec<u8>) -> (r: Text)
        requires
            valid_utf8(bytes@),
        ensures
            r@ == bytes@,
    {
        Text { bytes }
    }

    /// Remove every trailing occurrence of the ASCII byte `b`.
    pub fn strip_trailing(&self, b: u8) -> (r: Text)
        requires
            b < 0x80,
        ensures
            r@ == strip_trailing_byte(self@, b),
    {
        proof {
            use_type_invariant(self);
            lemma_strip_trailing_valid(self@, b);
            assert(self@.subrange(0, self@.len() as int) =~= self@);
        }
        let mut end = self.bytes.len();
        loop
            invariant
                end <= self@.len(),
                b < 0x80,
                valid_utf8(self@),
                end <= self.bytes@.len(),
                self.bytes@ == self@,
                strip_trailing_byte(self@, b) == strip_trailing_byte(
                    self@.subrange(0, end as int),
                    b,
                ),
            ensures
                end <= self@.len(),
                strip_trailing_byte(self@, b) == self@.subrange(0, end as int),
            decreases end,
        {
            let ghost cur = self@.subrange(0, end as int);
            if end == 0 {
                proof {
                    assert(cur =~= Seq::<u8>::empty());
                    assert(strip_trailing_byte(cur, b) == cur);
                }
                break;
            }
            let c = *slice_index_get(self.bytes.as_slice(), end - 1);
            proof {
                assert(cur[end - 1] == c);
            }
            if c != b {
                proof {
                    assert(strip_trailing_byte(cur, b) == cur);
                }
                break;
            }
            proof {
                assert(cur.drop_last() =~= self@.subrange(0, end - 1));
            }
            end = end - 1;
        }
        let piece = slice_subrange(self.bytes.as_slice(), 0, end);
        Text { bytes: slice_to_vec(piece) }
    }

    /// Owned concatenation; the result is again valid text.
    pub fn concat(&self, other: &Text) -> (r: Text)
        ensures
            r@ == self@ + other@,
    {
        proof {
            use_type_invariant(self);
            use_type_invariant(other);
        }
        let mut bytes = slice_to_vec(self.bytes.as_slice());
        crate::bytes::push_all(&mut bytes, other.bytes.as_slice());
        Text { bytes }
    }
}

/// `s` with every trailing occurrence of the byte `b` removed.
pub open spec fn strip_trailing_byte(s: Seq<u8>, b: u8) -> Seq<u8>
    decreases s.len(),
{
    if s.len() > 0 && s[s.len() - 1] == b {
        strip_trailing_byte(s.drop_last(), b)
    } else {
        s
    }
}

/// A sequence of ASCII bytes is a valid encoding.
pub proof fn lemma_ascii_valid(s: Seq<u8>)
    requires
        forall|i: int| 0 <= i < s.len() ==> s[i] < 0x80,
    ensures
        valid_utf8(s),
{
    assert(s.subrange(0, 0) =~= Seq::<u8>::empty());
    assert(valid_utf8(s.subrange(0, 0)));
    assert(vstd::utf8::partial_valid_utf8(s, 0));
    assert forall|i: int| 0 <= i < s.len() implies vstd::utf8::is_leading_byte_width_1(
        s[i],
    ) by {}
    vstd::utf8::partial_valid_utf8_extend_ascii_block(s, 0, s.len() as int);
    assert(s.subrange(0, s.len() as int) =~= s);
}

/// Stripping trailing ASCII bytes keeps the encoding valid.
pub proof fn lemma_strip_trailing_valid(s: Seq<u8>, b: u8)
    requires
        valid_utf8(s),
        b < 0x80,
    ensures
        valid_utf8(strip_trailing_byte(s, b)),
    decreases s.len(),
{
    if s.len() > 0 && s[s.len() - 1] == b {
        assert(!vstd::utf8::is_continuation_byte(s[s.len() - 1]));
        vstd::utf8::is_char_boundary_iff_not_is_continuation_byte(s, s.len() - 1);
        vstd::utf8::valid_utf8_split(s, s.len() - 1);
        assert(s.subrange(0, s.len() - 1) =~= s.drop_last());
        lemma_strip_trailing_valid(s.drop_last(), b);
    }
}

/// The stripped form does not end with the stripped byte.
pub proof fn lemma_strip_trailing_last(s: Seq<u8>, b: u8)
    ensures
        ({
            let r = strip_trailing_byte(s, b);
            r.len() > 0 ==> r[r.len() - 1] != b
        }),
    decreases s.len(),
{
    if s.len() > 0 && s[s.len() - 1] == b {
        lemma_strip_trailing_last(s.drop_last(), b);
    }
}

/// True exactly when the whole view is a valid UTF-8 encoding.
pub fn utf8_check(raw: &[u8]) -> (r: bool)
    ensures
        r == valid_utf8(raw@),
{
    let n = raw.len();
    let mut i: usize = 0;
    while i < n
        invariant
            i <= n,
            n == raw@.len(),
            vstd::utf8::partial_valid_utf8(raw@, i as int),
        decreases n - i,
    {
        let ghost suf = raw@.subrange(i as int, n as int);
        match scalar_len_at(raw, i) {
            Some(l) => {
                i = i + l;
            },
            None => {
                proof {
                    assert(!valid_utf8(suf));
                    vstd::utf8::partial_valid_partial_invalid_utf8(raw@, i as int);
                }
                return false;
            },
        }
    }
    proof {
        assert(raw@.subrange(0, n as int) =~= raw@);
    }
    true
}

/// Length of the maximal ill-formed subsequence that begins at `i`,
/// where no well-formed scalar encoding begins there.
fn ill_prefix_len_at(s: &[u8], i: usize) -> (r: usize)
    requires
        i < s@.len(),
        !valid_first_scalar(s@.subrange(i as int, s@.len() as int)),
    ensures
        ({
            let suf = s@.subrange(i as int, s@.len() as int);
            r == ill_formed_prefix_len(suf) && 1 <= r && i + r <= s@.len()
        }),
{
    let ghost suf = s@.subrange(i as int, s@.len() as int);
    let n = s.len();
    let b0 = *slice_index_get(s, i);
    proof {
        assert(suf[0] == b0);
    }
    if n - i < 2 || !(0xc2 <= b0 && b0 <= 0xf4) {
        return 1;
    }
    let b1 = *slice_index_get(s, i + 1);
    proof {
        assert(suf[1] == b1);
    }
    let b1_ok = if b0 == 0xe0 {
        0xa0 <= b1 && b1 <= 0xbf
    } else if b0 == 0xed {
        0x80 <= b1 && b1 <= 0x9f
    } else if b0 == 0xf0 {
        0x90 <= b1 && b1 <= 0xbf
    } else if b0 == 0xf4 {
        0x80 <= b1 && b1 <= 0x8f
    } else {
        0x80 <= b1 && b1 <= 0xbf
    };
    if !b1_ok {
        return 1;
    }
    if b0 <= 0xdf || n - i < 3 {
        return 2;
    }
    let b2 = *slice_index_get(s, i + 2);
    proof {
        assert(suf[2] == b2);
    }
    if !(0x80 <= b2 && b2 <= 0xbf) {
        return 2;
    }
    3
}

/// Length of the well-formed scalar encoding that begins at `i`, or `None`
/// when no well-formed encoding begins there.
fn scalar_len_at(s: &[u8], i: usize) -> (r: Option<usize>)
    requires
        i < s@.len(),
    ensures
        ({
            let suf = s@.subrange(i as int, s@.len() as int);
            match r {
                Some(l) => valid_first_scalar(suf) && l == length_of_first_scalar(suf) && i + l
                    <= s@.len(),
                None => !valid_first_scalar(suf),
            }
        }),
{
    let ghost suf = s@.subrange(i as int, s@.len() as int);
    let n = s.len();
    let b0 = *slice_index_get(s, i);
    proof {
        assert(suf[0] == b0);
    }
    if b0 < 0x80 {
        proof {
            assert(b0 & 0x7f <= 0x7f) by (bit_vector);
        }
        return Some(1);
    }
    if b0 < 0xc0 {
        return None;
    }
    if b0 < 0xe0 {
        // two-byte encoding
        if i + 1 >= n {
            return None;
        }
        let b1 = *slice_index_get(s, i + 1);
        proof {
            assert(suf[1] == b1);
        }
        if !(0x80 <= b1 && b1 <= 0xbf) {
            return None;
        }
        let cp: u32 = (((b0 & 0x1f) as u32) << 6u32) | ((b1 & 0x3f) as u32);
        if cp < 0x80 {
            return None;
        }
        proof {
            assert((((b0 & 0x1f) as u32) << 6u32) | ((b1 & 0x3f) as u32) <= 0x7ff)
                by (bit_vector);
        }
        return Some(2);
    }
    if b0 < 0xf0 {
        // three-byte encoding
        if n - i < 3 {
            return None;
        }
        let b1 = *slice_index_get(s, i + 1);
        let b2 = *slice_index_get(s, i + 2);
        proof {
            assert(suf[1] == b1);
            assert(suf[2] == b2);
        }
        if !(0x80 <= b1 && b1 <= 0xbf) {
            return None;
        }
        if !(0x80 <= b2 && b2 <= 0xbf) {
            return None;
        }
        let cp: u32 = (((b0 & 0x0f) as u32) << 12u32) | (((b1 & 0x3f) as u32) << 6u32) | ((b2
            & 0x3f) as u32);
        if cp < 0x800 {
            return None;
        }
        if 0xd800 <= cp && cp <= 0xdfff {
            return None;
        }
        return Some(3);
    }
    if b0 < 0xf8 {
        // four-byte encoding
        if n - i < 4 {
            return None;
        }
        let b1 = *slice_index_get(s, i + 1);
        let b2 = *slice_index_get(s, i + 2);
        let b3 = *slice_index_get(s, i + 3);
        proof {
            assert(suf[1] == b1);
            assert(suf[2] == b2);
            assert(suf[3] == b3);
        }
        if !(0x80 <= b1 && b1 <= 0xbf) {
            return None;
        }
        if !(0x80 <= b2 && b2 <= 0xbf) {
            return None;
        }
        if !(0x80 <= b3 && b3 <= 0xbf) {
            return None;
        }
        let cp: u32 = (((b0 & 0x07) as u32) << 18u32) | (((b1 & 0x3f) as u32) << 12u32) | (((b2
            & 0x3f) as u32) << 6u32) | ((b3 & 0x3f) as u32);
        if cp < 0x10000 {
            return None;
        }
        if cp > 0x10ffff {
            return None;
        }
        return Some(4);
    }
    None
}

/// The lossy decoding of any view is itself valid UTF-8.
pub proof fn lemma_utf8_lossy_valid(s: Seq<u8>)
    ensures
        valid_utf8(utf8_lossy(s)),
    decreases s.len(),
{
    if s.len() == 0 {
    } else if valid_first_scalar(s) {
        lemma_utf8_lossy_valid(pop_first_scalar(s));
        lemma_take_first_scalar_valid(s);
    } else {
        assert(1 <= ill_formed_prefix_len(s) <= s.len());
        lemma_utf8_lossy_valid(s.skip(ill_formed_prefix_len(s)));
        lemma_replacement_valid();
    }
}

/// On input that is already valid UTF-8, lossy decoding is the identity.
pub proof fn lemma_utf8_lossy_identity(s: Seq<u8>)
    ensures
        valid_utf8(s) ==> utf8_lossy(s) == s,
    decreases s.len(),
{
    if s.len() != 0 && valid_utf8(s) {
        lemma_utf8_lossy_identity(pop_first_scalar(s));
        assert(take_first_scalar(s) + pop_first_scalar(s) =~= s);
    }
}

proof fn lemma_take_first_scalar_valid(s: Seq<u8>)
    requires
        valid_first_scalar(s),
    ensures
        valid_utf8(take_first_scalar(s)),
{
    let t = take_first_scalar(s);
    let l = length_of_first_scalar(s);
    assert(t.len() == l);
    assert(t[0] == s[0]);
    assert(l >= 2 ==> t[1] == s[1]);
    assert(l >= 3 ==> t[2] == s[2]);
    assert(l >= 4 ==> t[3] == s[3]);
    assert(valid_first_scalar(t));
    assert(length_of_first_scalar(t) == l);
    assert(pop_first_scalar(t) =~= Seq::<u8>::empty());
    assert(valid_utf8(pop_first_scalar(t)));
}

proof fn lemma_replacement_valid()
    ensures
        valid_utf8(replacement_bytes()),
{
    let r = replacement_bytes();
    assert((((0xefu8 & 0x0f) as u32) << 12) | (((0xbfu8 & 0x3f) as u32) << 6) | ((0xbdu8
        & 0x3f) as u32) == 0xfffdu32) by (bit_vector);
    assert(r[0] == 0xefu8 && r[1] == 0xbfu8 && r[2] == 0xbdu8);
    assert(vstd::utf8::decode_first_codepoint(r) == vstd::utf8::codepoint_width_3(
        0xefu8,
        0xbfu8,
        0xbdu8,
    ));
    assert(vstd::utf8::codepoint_width_3(0xefu8, 0xbfu8, 0xbdu8) == 0xfffdu32);
    assert(valid_first_scalar(r));
    assert(length_of_first_scalar(r) == 3);
    assert(pop_first_scalar(r) =~= Seq::<u8>::empty());
    assert(valid_utf8(Seq::<u8>::empty()));
}

} // verus!
