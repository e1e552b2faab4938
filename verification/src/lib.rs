//! Verified core of a host/guest file bridge: framing for a length-delimited
//! request/response protocol over a byte stream, the host-side object and
//! handle identifier lifecycle, path containment under a configured root,
//! directory enumeration by continuation offset, chunked transfer planning,
//! and the decision rules of a periodic bidirectional sync engine.
//!
//! All I/O (sockets, the real filesystem) lives outside this crate; the
//! functions here compute over plain values and state exactly what they
//! return.

pub mod bridge;
pub mod chunk;
pub mod config;
pub mod contain;
pub mod enumerate;
pub mod errors;
pub mod handles;
pub mod header;
pub mod idtable;
pub mod listing;
pub mod message;
pub mod numfmt;
pub mod split;
pub mod sync;
pub mod wire;
