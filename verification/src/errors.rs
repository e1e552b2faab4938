//! Shared error taxonomy for the bridge and the sync engine.
//!
//! Per-request errors are encoded into a response and never tear down the
//! connection; `ChannelClosed` and `ProtocolError` end the connection but
//! never the process.

use vstd::prelude::*;

verus! {

/// Every failure the bridge or the sync engine can report.
///
/// `IoFailure` preserves the native numeric error code so a capable peer can
/// reproduce standard filesystem error semantics.
#[derive(Clone, Copy, Debug, PartialEq, Eq, Structural)]
pub enum FsError {
    /// The named object does not exist.
    NotFound,
    /// An identifier that was once valid has been reclaimed.
    Stale,
    /// The operation is not allowed, including path-escape attempts.
    PermissionDenied,
    /// The object to create already exists.
    AlreadyExists,
    /// A malformed message or an oversized body.
    InvalidArgument,
    /// The peer closed the stream before a full message arrived.
    ChannelClosed,
    /// A native filesystem call failed with the given code.
    IoFailure(i32),
    /// The header and body of a message disagree.
    ProtocolError,
}

impl FsError {
    /// The human-readable cause string carried in an error response.
    pub fn wire_message(&self) -> (s: &'static str)
        ensures
            s@ == self.spec_wire_message(),
    {
        match self {
            FsError::NotFound => "not found",
            FsError::Stale => "stale identifier",
            FsError::PermissionDenied => "permission denied",
            FsError::AlreadyExists => "already exists",
            FsError::InvalidArgument => "invalid argument",
            FsError::ChannelClosed => "channel closed",
            FsError::IoFailure(_) => "io failure",
            FsError::ProtocolError => "protocol error",
        }
    }

    /// The bytes of the cause string on the wire.
    pub open spec fn spec_wire_message_bytes(self) -> Seq<u8> {
        vstd::utf8::encode_utf8(self.spec_wire_message())
    }

    /// What `wire_message` returns for each variant.
    pub open spec fn spec_wire_message(self) -> Seq<char> {
        match self {
            FsError::NotFound => "not found"@,
            FsError::Stale => "stale identifier"@,
            FsError::PermissionDenied => "permission denied"@,
            FsError::AlreadyExists => "already exists"@,
            FsError::InvalidArgument => "invalid argument"@,
            FsError::ChannelClosed => "channel closed"@,
            FsError::IoFailure(_) => "io failure"@,
            FsError::ProtocolError => "protocol error"@,
        }
    }
}

} // verus!
