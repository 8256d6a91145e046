//! Locates, inside the literal bytes of an HTTP request and its response, the
//! exact byte ranges of named fields (header values, nested body fields), so a
//! caller can disclose only those ranges and keep everything else hidden.
//!
//! The pipeline is: parse the raw transcript bytes into a positioned syntax
//! tree (`http`, `json`), resolve dotted keypaths to the byte spans of their
//! terminal values (`resolve`), and merge the spans into a canonical
//! non-overlapping range set (`span`). The surrounding session (network,
//! cryptographic commitment, process I/O) stays outside this crate; it hands
//! in plain byte buffers and receives range sets and events back (`events`,
//! `session`).

pub mod errors;
pub mod span;
pub mod json;
pub mod http;
pub mod resolve;
pub mod laws;
pub mod events;
pub mod session;
