//! Payload and requirement records exchanged with the coordinating host.

use crate::text::Text;
use vstd::prelude::*;

verus! {

/// The payload of the one named operation: a plugin's name, its endpoint
/// path relative to the host, and the absolute callback endpoint URL.
/// All three are owned, validated text.
#[derive(Debug, Clone, PartialEq, Eq)]
pub struct RegistrationData {
    pub name: Text,
    pub rel_url: Text,
    pub endpoint: Text,
}

/// What a request towards the host requires besides the payload: the
/// target URL (absolute, or relative to the configured base address) and
/// the bearer token injected into the request's authorization header.
#[derive(Debug, Clone, PartialEq, Eq)]
pub struct RequestRequirements {
    pub url: Text,
    pub token: Text,
}

/// The host's answer to a registration: a token, when one was granted.
#[derive(Debug, Clone, PartialEq, Eq)]
pub struct RegistrationResponse {
    pub token: Option<Text>,
}

} // verus!
