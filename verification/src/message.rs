//! The bridge's own message framing: a fixed header of opcode, correlation
//! number and body length, little-endian, followed by exactly that many body
//! bytes.  Correlation numbers are chosen by the requester and echoed
//! verbatim in the matching response; a declared body length over the
//! configured maximum is rejected before any allocation.

use vstd::prelude::*;
use vstd::bytes::{spec_u32_to_le_bytes, spec_u32_from_le_bytes, spec_u64_to_le_bytes, spec_u64_from_le_bytes, lemma_auto_spec_u32_to_from_le_bytes, lemma_auto_spec_u64_to_from_le_bytes, u32_to_le_bytes, u32_from_le_bytes, u64_to_le_bytes, u64_from_le_bytes};
use vstd::slice::slice_subrange;
use crate::errors::FsError;

verus! {

/// Encoded size of a message header: opcode, correlation number, body
/// length.
pub const MESSAGE_HEADER_LEN: usize = 16;

/// One bridged message as the specifications see it.
#[verifier::ext_equal]
pub ghost struct MessageV {
    pub opcode: u32,
    pub correlation_id: u64,
    pub payload: Seq<u8>,
}

/// One bridged message: its operation, the requester-chosen correlation
/// number, and the payload bytes.
pub struct Message {
    pub opcode: u32,
    pub correlation_id: u64,
    pub payload: Vec<u8>,
}

impl View for Message {
    type V = MessageV;

    open spec fn view(&self) -> MessageV {
        MessageV {
            opcode: self.opcode,
            correlation_id: self.correlation_id,
            payload: self.payload@,
        }
    }
}

/// The bytes of a message header.
pub open spec fn spec_message_header(opcode: u32, correlation_id: u64, body_len: u32) -> Seq<u8> {
    spec_u32_to_le_bytes(opcode) + spec_u64_to_le_bytes(correlation_id) + spec_u32_to_le_bytes(
        body_len,
    )
}

/// The bytes of a whole message on the wire.
pub open spec fn spec_encode_message(m: MessageV) -> Seq<u8> {
    spec_message_header(m.opcode, m.correlation_id, m.payload.len() as u32) + m.payload
}

/// Decodes a complete message: `Some` exactly when the buffer is a whole
/// header whose declared body length matches the bytes present.
pub open spec fn spec_decode_message(b: Seq<u8>) -> Option<MessageV> {
    if b.len() >= MESSAGE_HEADER_LEN && b.len() == MESSAGE_HEADER_LEN + spec_u32_from_le_bytes(
        b.subrange(12, 16),
    ) {
        Some(
            MessageV {
                opcode: spec_u32_from_le_bytes(b.subrange(0, 4)),
                correlation_id: spec_u64_from_le_bytes(b.subrange(4, 12)),
                payload: b.subrange(MESSAGE_HEADER_LEN as int, b.len() as int),
            },
        )
    } else {
        None
    }
}

impl Message {
    /// Encodes this message for the wire.
    pub fn encode(&self) -> (r: Vec<u8>)
        requires
            self.payload@.len() <= u32::MAX,
        ensures
            r@ == spec_encode_message(self@),
    {
        let mut out: Vec<u8> = Vec::new();
        let mut piece: Vec<u8> = u32_to_le_bytes(self.opcode);
        out.append(&mut piece);
        let mut piece: Vec<u8> = u64_to_le_bytes(self.correlation_id);
        out.append(&mut piece);
        let mut piece: Vec<u8> = u32_to_le_bytes(self.payload.len() as u32);
        out.append(&mut piece);
        out.extend_from_slice(self.payload.as_slice());
        proof {
            assert(out@ =~= spec_encode_message(self@));
        }
        out
    }

    /// The response to this message: the caller's payload under the echoed
    /// correlation number, never any other.
    pub fn respond(&self, opcode: u32, payload: Vec<u8>) -> (r: Message)
        ensures
            r@.correlation_id == self@.correlation_id,
            r@.opcode == opcode,
            r@.payload == payload@,
    {
        Message { opcode, correlation_id: self.correlation_id, payload }
    }
}

/// Reads the opcode, correlation number and declared body length out of a
/// 16-byte message header.
pub fn decode_message_header(h: &[u8]) -> (r: (u32, u64, u32))
    requires
        h@.len() == MESSAGE_HEADER_LEN,
    ensures
        r.0 == spec_u32_from_le_bytes(h@.subrange(0, 4)),
        r.1 == spec_u64_from_le_bytes(h@.subrange(4, 12)),
        r.2 == spec_u32_from_le_bytes(h@.subrange(12, 16)),
{
    let opcode = u32_from_le_bytes(slice_subrange(h, 0, 4));
    let correlation_id = u64_from_le_bytes(slice_subrange(h, 4, 12));
    let body_len = u32_from_le_bytes(slice_subrange(h, 12, 16));
    (opcode, correlation_id, body_len)
}

/// Accepts or rejects a declared body length before anything is allocated.
pub fn check_body_len(declared: u32, max_body: u32) -> (r: Result<u32, FsError>)
    ensures
        match r {
            Ok(n) => declared <= max_body && n == declared,
            Err(e) => declared > max_body && e == FsError::InvalidArgument,
        },
{
    if declared > max_body {
        Err(FsError::InvalidArgument)
    } else {
        Ok(declared)
    }
}

/// A message survives the wire: decoding an encoded message yields the
/// message itself, opcode, correlation number and payload alike.
pub proof fn lemma_message_round_trip(m: MessageV)
    requires
        m.payload.len() <= u32::MAX,
    ensures
        spec_decode_message(spec_encode_message(m)) == Some(m),
{
    lemma_auto_spec_u32_to_from_le_bytes();
    lemma_auto_spec_u64_to_from_le_bytes();
    let b = spec_encode_message(m);
    assert(b.subrange(0, 4) =~= spec_u32_to_le_bytes(m.opcode));
    assert(b.subrange(4, 12) =~= spec_u64_to_le_bytes(m.correlation_id));
    assert(b.subrange(12, 16) =~= spec_u32_to_le_bytes(m.payload.len() as u32));
    assert(b.subrange(MESSAGE_HEADER_LEN as int, b.len() as int) =~= m.payload);
}

} // verus!
