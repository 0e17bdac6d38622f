//! JSONTP: a JSON-encoded request/response protocol with HTTP-like
//! semantics (methods, resources, status codes, headers, content
//! negotiation), carried as length-prefixed JSON documents over a raw
//! byte stream.
//!
//! The crate verifies the protocol engine: the document model and its
//! codec, request/response validation, language negotiation, the status
//! catalog, routing, and the per-message connection step. Stream I/O is
//! left to the host program.

pub mod client;
pub mod codec;
pub mod json;
pub mod model;
pub mod server;
pub mod status;
pub mod text;
pub mod time;
