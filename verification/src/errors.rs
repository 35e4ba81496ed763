//! Error taxonomy.
//!
//! A closed set of failure kinds unifying transport, parsing and
//! structural failures; every fallible operation of the engine reports
//! through this one type.

use crate::bytes::push_all;
use crate::pipeline::{dec_digits, push_dec};
use crate::text::{lemma_ascii_valid, lemma_utf8_lossy_valid, utf8_lossy, Text};
use vstd::prelude::*;
use vstd::utf8::{encode_utf8, valid_utf8};

verus! {

broadcast use vstd::utf8::group_utf8_lib;


/// The engine's failure kinds.
///
/// `Remote` carries the HTTP status and the raw response body so that a
/// failure can be logged meaningfully; the other variants carry a short
/// message.
#[derive(Debug, Clone, PartialEq, Eq)]
pub enum NaamioError {
    /// Local stream or file failure.
    Io(String),
    /// Connection, TLS or protocol-level failure from the HTTP stack.
    Transport(String),
    /// Payload encode or decode failure.
    Serialization(String),
    /// Malformed URL or target.
    AddressSyntax(String),
    /// The remote host answered with a non-success status; carries the
    /// status and the raw body bytes.
    Remote(u16, Vec<u8>),
    /// Catch-all for conditions not otherwise classified, such as a
    /// failed submission into a closed channel.
    Other(String),
}

pub type NaamioResult<T> = Result<T, NaamioError>;

impl NaamioError {
    /// A short label for the failure kind, for logging.
    pub fn kind_name(&self) -> (r: &'static str)
        ensures
            match self {
                NaamioError::Io(_) => r@ == "I/O error"@,
                NaamioError::Transport(_) => r@ == "transport error"@,
                NaamioError::Serialization(_) => r@ == "serialization error"@,
                NaamioError::AddressSyntax(_) => r@ == "address syntax error"@,
                NaamioError::Remote(_, _) => r@ == "remote error"@,
                NaamioError::Other(_) => r@ == "unknown error"@,
            },
    {
        match self {
            NaamioError::Io(_) => "I/O error",
            NaamioError::Transport(_) => "transport error",
            NaamioError::Serialization(_) => "serialization error",
            NaamioError::AddressSyntax(_) => "address syntax error",
            NaamioError::Remote(_, _) => "remote error",
            NaamioError::Other(_) => "unknown error",
        }
    }

    /// The one line a failure writes to the log: the kind label, `: `,
    /// and the detail — the carried message, or for a remote failure the
    /// status and the lossily decoded body.
    pub fn message(&self) -> (r: Text)
        ensures
            r@ == error_message(self),
    {
        let mut out: Vec<u8> = Vec::new();
        match self {
            NaamioError::Io(m) => {
                push_all(&mut out, "I/O error: ".as_bytes());
                push_all(&mut out, m.as_str().as_bytes());
            },
            NaamioError::Transport(m) => {
                push_all(&mut out, "transport error: ".as_bytes());
                push_all(&mut out, m.as_str().as_bytes());
            },
            NaamioError::Serialization(m) => {
                push_all(&mut out, "serialization error: ".as_bytes());
                push_all(&mut out, m.as_str().as_bytes());
            },
            NaamioError::AddressSyntax(m) => {
                push_all(&mut out, "address syntax error: ".as_bytes());
                push_all(&mut out, m.as_str().as_bytes());
            },
            NaamioError::Remote(status, body) => {
                push_all(&mut out, "remote error: status ".as_bytes());
                push_dec(&mut out, *status as u64);
                push_all(&mut out, ", body ".as_bytes());
                let lossy = Text::decode_owned(body.as_slice());
                push_all(&mut out, lossy.encode_for_export());
            },
            NaamioError::Other(m) => {
                push_all(&mut out, "unknown error: ".as_bytes());
                push_all(&mut out, m.as_str().as_bytes());
            },
        }
        proof {
            lemma_error_message_valid(self);
        }
        Text::from_utf8(out)
    }
}

/// The bytes of the log line an error produces.
pub open spec fn error_message(e: &NaamioError) -> Seq<u8> {
    match e {
        NaamioError::Io(m) => encode_utf8("I/O error: "@) + encode_utf8(m@),
        NaamioError::Transport(m) => encode_utf8("transport error: "@) + encode_utf8(m@),
        NaamioError::Serialization(m) => encode_utf8("serialization error: "@) + encode_utf8(m@),
        NaamioError::AddressSyntax(m) => encode_utf8("address syntax error: "@) + encode_utf8(m@),
        NaamioError::Remote(status, body) => encode_utf8("remote error: status "@) + dec_digits(
            *status as nat,
        ) + encode_utf8(", body "@) + utf8_lossy(body@),
        NaamioError::Other(m) => encode_utf8("unknown error: "@) + encode_utf8(m@),
    }
}

/// The log line is itself valid text.
proof fn lemma_error_message_valid(e: &NaamioError)
    ensures
        valid_utf8(error_message(e)),
{
    match e {
        NaamioError::Remote(status, body) => {
            crate::pipeline::lemma_dec_digits_value(*status as nat);
            assert forall|i: int| 0 <= i < dec_digits(*status as nat).len() implies dec_digits(
                *status as nat,
            )[i] < 0x80 by {
                assert(crate::pipeline::is_digit(dec_digits(*status as nat)[i]));
            }
            lemma_ascii_valid(dec_digits(*status as nat));
            lemma_utf8_lossy_valid(body@);
            assert(valid_utf8(encode_utf8("remote error: status "@) + dec_digits(*status as nat)));
            assert(valid_utf8(
                encode_utf8("remote error: status "@) + dec_digits(*status as nat) + encode_utf8(
                    ", body "@,
                ),
            ));
        },
        _ => {
        },
    }
}

} // verus!
