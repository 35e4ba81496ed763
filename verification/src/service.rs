//! Decisions of the dispatch engine.
//!
//! The engine owns one reactor thread pulling deferred work items off a
//! rendezvous channel; that loop, the channel and the sockets live
//! outside the library.  Everything the loop decides — how a submission
//! becomes a request, and what a completed exchange means for the
//! caller's callback — is computed here, on plain values.

use crate::address::{resolved_target, uri_parse_ok, BaseAddress, Url};
use crate::errors::{NaamioError, NaamioResult};
use crate::json::{encoded_registration, sp_response};
use crate::pipeline::{
    build_request, expected_headers, header_model, interpret_response, is_success_status, Method,
    OutboundRequest,
};
use crate::text::Text;
use crate::types::{RegistrationData, RequestRequirements};
use vstd::prelude::*;
use vstd::utf8::valid_utf8;

verus! {

/// Process-wide log verbosity, from silent to trace.
#[derive(Debug, Clone, Copy, PartialEq, Eq, Structural)]
pub enum LogLevel {
    Off,
    Error,
    Warn,
    Info,
    Debug,
    Trace,
}

/// The verbosity a configuration byte names, if any.
pub open spec fn log_level_of(level: u8) -> Option<LogLevel> {
    if level == 0 {
        Some(LogLevel::Off)
    } else if level == 1 {
        Some(LogLevel::Error)
    } else if level == 2 {
        Some(LogLevel::Warn)
    } else if level == 3 {
        Some(LogLevel::Info)
    } else if level == 4 {
        Some(LogLevel::Debug)
    } else if level == 5 {
        Some(LogLevel::Trace)
    } else {
        None
    }
}

/// Map a configuration byte to a verbosity; bytes outside `0..=5` name
/// none and are silently ignored by the caller.
pub fn log_level_from(level: u8) -> (r: Option<LogLevel>)
    ensures
        r == log_level_of(level),
{
    match level {
        0 => Some(LogLevel::Off),
        1 => Some(LogLevel::Error),
        2 => Some(LogLevel::Warn),
        3 => Some(LogLevel::Info),
        4 => Some(LogLevel::Debug),
        5 => Some(LogLevel::Trace),
        _ => None,
    }
}

/// The deferred half of queueing a request: resolve the requirement's
/// target against the base address and build the one outbound request,
/// with the requirement's token as bearer authorization.  Nothing here
/// touches the network; a target the URI parser rejects aborts with
/// `AddressSyntax` before any request exists.
pub fn plan_request(
    base: &BaseAddress,
    method: Method,
    req: &RequestRequirements,
    data: Option<&RegistrationData>,
) -> (r: NaamioResult<OutboundRequest>)
    ensures
        ({
            let target = resolved_target(base@, req.url@);
            &&& (r is Ok <==> uri_parse_ok(target))
            &&& (r matches Ok(out) ==> {
                &&& out.method == method
                &&& out.target@ == target
                &&& (match data {
                    Some(d) => out.body matches Some(b) && b@ == encoded_registration(
                        d.name@,
                        d.rel_url@,
                        d.endpoint@,
                    ),
                    None => out.body is None,
                })
                &&& header_model(out.headers@) == expected_headers(
                    Some(req.token@),
                    match data {
                        Some(d) => Some(encoded_registration(d.name@, d.rel_url@, d.endpoint@)),
                        None => None,
                    },
                )
            })
            &&& (r matches Err(e) ==> e is AddressSyntax)
        }),
{
    let target = match Url::resolve(base, &req.url) {
        Ok(t) => t,
        Err(e) => {
            return Err(e);
        },
    };
    Ok(build_request(method, &target, data, Some(&req.token)))
}

/// Everything a registration submission decides before any network
/// activity: decode the externally-owned views, resolve the target, and
/// build the one outbound request.
///
/// The text views `name`, `rel_url`, `endpoint` and `token` must decode
/// strictly as UTF-8, else the submission is aborted with a
/// `Serialization` error and no request is built; a `url` view that does
/// not decode, or a resolved target the URI parser rejects, aborts with
/// `AddressSyntax`.
pub fn plan_registration(
    base: &BaseAddress,
    name: &[u8],
    rel_url: &[u8],
    endpoint: &[u8],
    url: &[u8],
    token: &[u8],
) -> (r: NaamioResult<OutboundRequest>)
    ensures
        ({
            let texts_ok = valid_utf8(name@) && valid_utf8(rel_url@) && valid_utf8(endpoint@)
                && valid_utf8(token@);
            let target = resolved_target(base@, url@);
            let body = encoded_registration(name@, rel_url@, endpoint@);
            &&& (r is Ok <==> texts_ok && valid_utf8(url@) && uri_parse_ok(target))
            &&& (r matches Ok(req) ==> {
                &&& req.method == Method::Post
                &&& req.target@ == target
                &&& (req.body matches Some(b) && b@ == body)
                &&& header_model(req.headers@) == expected_headers(Some(token@), Some(body))
            })
            &&& !texts_ok ==> (r matches Err(e) && e is Serialization)
            &&& texts_ok && !(valid_utf8(url@) && uri_parse_ok(target)) ==> (r matches Err(e)
                && e is AddressSyntax)
        }),
{
    let name_t = match Text::decode_borrowed(name) {
        Some(t) => t,
        None => {
            return Err(NaamioError::Serialization("invalid UTF-8 in name".to_owned()));
        },
    };
    let rel_url_t = match Text::decode_borrowed(rel_url) {
        Some(t) => t,
        None => {
            return Err(NaamioError::Serialization("invalid UTF-8 in rel_url".to_owned()));
        },
    };
    let endpoint_t = match Text::decode_borrowed(endpoint) {
        Some(t) => t,
        None => {
            return Err(NaamioError::Serialization("invalid UTF-8 in endpoint".to_owned()));
        },
    };
    let token_t = match Text::decode_borrowed(token) {
        Some(t) => t,
        None => {
            return Err(NaamioError::Serialization("invalid UTF-8 in token".to_owned()));
        },
    };
    let url_t = match Text::decode_borrowed(url) {
        Some(t) => t,
        None => {
            return Err(NaamioError::AddressSyntax("invalid UTF-8 in url".to_owned()));
        },
    };
    let req = RequestRequirements { url: url_t, token: token_t };
    let data = RegistrationData { name: name_t, rel_url: rel_url_t, endpoint: endpoint_t };
    plan_request(base, Method::Post, &req, Some(&data))
}

/// What a completed exchange means for the caller's callback.
#[derive(Debug, Clone, PartialEq, Eq)]
pub enum Completion {
    /// Invoke the completion callback exactly once with this token.
    Invoke(Text),
    /// The host answered without a token; log, and do not invoke.
    NoToken,
    /// The exchange failed; log the error, and do not invoke.
    Failed(NaamioError),
}

/// Decide the callback action for a completed exchange.  A success
/// status with a decodable body yields the token outcome; every failure
/// is logged and never invokes the callback.
pub fn completion_action(status: u16, body: &[u8]) -> (r: Completion)
    ensures
        is_success_status(status) ==> match sp_response(body@) {
            Some(tok) => match tok {
                Some(bytes) => if valid_utf8(bytes) {
                    r matches Completion::Invoke(t) && t@ == bytes
                } else {
                    r matches Completion::Failed(e) && e is Serialization
                },
                None => r == Completion::NoToken,
            },
            None => r matches Completion::Failed(e) && e is Serialization,
        },
        !is_success_status(status) ==> (r matches Completion::Failed(e) && e
            matches NaamioError::Remote(s, b) && s == status && b@ == body@),
{
    match interpret_response(status, body) {
        Ok(resp) => match resp.token {
            Some(t) => Completion::Invoke(t),
            None => Completion::NoToken,
        },
        Err(e) => Completion::Failed(e),
    }
}

} // verus!
