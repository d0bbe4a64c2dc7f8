//! Core of a small HTTP/1.1 server: request framing and parsing, virtual
//! host selection, routing decisions, sessions and the error-to-response
//! pipeline. Socket and file I/O stay with the caller, which hands the
//! library plain values and performs the actions it returns.

pub mod body;
pub mod bytes;
pub mod config;
pub mod error;
pub mod request;
pub mod response;
pub mod router;
pub mod session;
