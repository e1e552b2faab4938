//! Framing for the coarse request/response protocol that carries the sync
//! engine's operations over an ordered byte stream.
//!
//! A request is an opcode byte, a little-endian 4-byte path length, and the
//! path bytes; a write request appends a 4-byte content length, and exactly
//! that many content bytes follow on the stream.  A response is a status byte
//! (zero on success), a 4-byte length, and either the payload or a UTF-8
//! cause string.

use vstd::prelude::*;
use vstd::bytes::{spec_u32_to_le_bytes, spec_u32_from_le_bytes, lemma_auto_spec_u32_to_from_le_bytes, u32_to_le_bytes, u32_from_le_bytes};
use vstd::slice::slice_subrange;

verus! {

/// Request: read one file's full content.
pub const MSG_READ_FILE: u8 = 1;

/// Request: replace one file's content.
pub const MSG_WRITE_FILE: u8 = 2;

/// Request: list the names in one directory.
pub const MSG_LIST_DIR: u8 = 3;

/// Request: size and kind of one object.
pub const MSG_STAT: u8 = 4;

/// Request: create a directory and its missing parents.
pub const MSG_MKDIR: u8 = 5;

/// Request: legacy alias for the recursive listing.
pub const MSG_SYNC_ALL: u8 = 10;

/// Request: recursive listing of paths with sizes and modification times.
pub const MSG_LIST_FILES: u8 = 11;

/// Status byte of a successful response.
pub const STATUS_OK: u8 = 0;

/// Status byte of an error response.
pub const STATUS_ERR: u8 = 255;

/// The well-known stream port both sides assume without negotiation.
pub const DEFAULT_PORT: u32 = 5742;

/// Bound on any single buffer held while streaming content.
pub const CHUNK_SIZE: usize = 32768;

/// The bytes of a request head: opcode, path length, path.
pub open spec fn spec_request_head(opcode: u8, path: Seq<u8>) -> Seq<u8> {
    seq![opcode] + spec_u32_to_le_bytes(path.len() as u32) + path
}

/// The bytes of a framed response: status, payload length, payload.
pub open spec fn spec_response(status: u8, data: Seq<u8>) -> Seq<u8> {
    seq![status] + spec_u32_to_le_bytes(data.len() as u32) + data
}

/// Decodes a complete request frame: `Some((opcode, path))` exactly when the
/// buffer is a whole head whose declared length matches the bytes present.
pub open spec fn spec_decode_request(b: Seq<u8>) -> Option<(u8, Seq<u8>)> {
    if b.len() >= 5 && b.len() == 5 + spec_u32_from_le_bytes(b.subrange(1, 5)) {
        Some((b[0], b.subrange(5, b.len() as int)))
    } else {
        None
    }
}

/// Decodes a complete response frame in the same way.
pub open spec fn spec_decode_response(b: Seq<u8>) -> Option<(u8, Seq<u8>)> {
    if b.len() >= 5 && b.len() == 5 + spec_u32_from_le_bytes(b.subrange(1, 5)) {
        Some((b[0], b.subrange(5, b.len() as int)))
    } else {
        None
    }
}

/// Builds the head of a request that carries no content.
pub fn encode_request(opcode: u8, path: &[u8]) -> (r: Vec<u8>)
    requires
        path@.len() <= u32::MAX,
    ensures
        r@ == spec_request_head(opcode, path@),
{
    let mut out: Vec<u8> = Vec::new();
    out.push(opcode);
    let mut len_bytes: Vec<u8> = u32_to_le_bytes(path.len() as u32);
    out.append(&mut len_bytes);
    out.extend_from_slice(path);
    proof {
        assert(out@ =~= spec_request_head(opcode, path@));
    }
    out
}

/// Builds the head of a write request; the content bytes follow it on the
/// stream unframed.
pub fn encode_write_request(path: &[u8], content_len: u32) -> (r: Vec<u8>)
    requires
        path@.len() <= u32::MAX,
    ensures
        r@ == spec_request_head(MSG_WRITE_FILE, path@) + spec_u32_to_le_bytes(content_len),
{
    let mut out: Vec<u8> = encode_request(MSG_WRITE_FILE, path);
    let mut len_bytes: Vec<u8> = u32_to_le_bytes(content_len);
    out.append(&mut len_bytes);
    proof {
        assert(out@ =~= spec_request_head(MSG_WRITE_FILE, path@) + spec_u32_to_le_bytes(content_len));
    }
    out
}

/// Reads the opcode and declared path length out of a 5-byte request head.
pub fn decode_request_header(h: &[u8]) -> (r: (u8, u32))
    requires
        h@.len() == 5,
    ensures
        r.0 == h@[0],
        r.1 == spec_u32_from_le_bytes(h@.subrange(1, 5)),
{
    let opcode: u8 = h[0];
    let len_slice: &[u8] = slice_subrange(h, 1, 5);
    let len: u32 = u32_from_le_bytes(len_slice);
    (opcode, len)
}

/// Frames a whole response: status byte, payload length, payload.
pub fn encode_response(status: u8, data: &[u8]) -> (r: Vec<u8>)
    requires
        data@.len() <= u32::MAX,
    ensures
        r@ == spec_response(status, data@),
{
    let mut out: Vec<u8> = Vec::new();
    out.push(status);
    let mut len_bytes: Vec<u8> = u32_to_le_bytes(data.len() as u32);
    out.append(&mut len_bytes);
    out.extend_from_slice(data);
    proof {
        assert(out@ =~= spec_response(status, data@));
    }
    out
}

/// Reads the status and declared payload length out of a 5-byte response
/// head.
pub fn decode_response_header(h: &[u8]) -> (r: (u8, u32))
    requires
        h@.len() == 5,
    ensures
        r.0 == h@[0],
        r.1 == spec_u32_from_le_bytes(h@.subrange(1, 5)),
{
    let status: u8 = h[0];
    let len_slice: &[u8] = slice_subrange(h, 1, 5);
    let len: u32 = u32_from_le_bytes(len_slice);
    (status, len)
}

/// A request head decodes back to exactly the opcode and path it was built
/// from: the framing never confuses path bytes with the head.
pub proof fn lemma_request_round_trip(opcode: u8, path: Seq<u8>)
    requires
        path.len() <= u32::MAX,
    ensures
        spec_decode_request(spec_request_head(opcode, path)) == Some((opcode, path)),
{
    lemma_auto_spec_u32_to_from_le_bytes();
    let b = spec_request_head(opcode, path);
    assert(b.subrange(1, 5) =~= spec_u32_to_le_bytes(path.len() as u32));
    assert(b.subrange(5, b.len() as int) =~= path);
}

/// A framed response decodes back to exactly the status and payload it was
/// built from.
pub proof fn lemma_response_round_trip(status: u8, data: Seq<u8>)
    requires
        data.len() <= u32::MAX,
    ensures
        spec_decode_response(spec_response(status, data)) == Some((status, data)),
{
    lemma_auto_spec_u32_to_from_le_bytes();
    let b = spec_response(status, data);
    assert(b.subrange(1, 5) =~= spec_u32_to_le_bytes(data.len() as u32));
    assert(b.subrange(5, b.len() as int) =~= data);
}

} // verus!
