//! Background dispatch engine for HTTP-based remote procedure calls.
//!
//! The library is the verified core of the engine: the boundary text
//! codec, the JSON wire framing, base-address configuration and target
//! resolution, the request/response pipeline, and the decisions of the
//! dispatch engine.  The surrounding process (reactor thread, sockets,
//! foreign-call shims) lives outside the library and hands it plain
//! values.

pub mod address;
pub mod bytes;
pub mod errors;
pub mod json;
pub mod pipeline;
pub mod service;
pub mod text;
pub mod types;
