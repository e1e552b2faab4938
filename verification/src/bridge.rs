//! Per-request decisions of the host-side dispatcher: which operation a
//! request head names, where under the served root it may act, and which
//! failures end the connection.
//!
//! The dispatcher's loop — receive one request, execute it, send exactly one
//! response — performs I/O and lives outside this crate; it hands each
//! request head to `plan_request` and encodes every outcome with the framing
//! functions, so the protocol decisions are all verified here.

use vstd::prelude::*;
use crate::errors::FsError;
use crate::contain::{spec_escapes, path_escapes, SLASH};
use crate::wire::{MSG_READ_FILE, MSG_WRITE_FILE, MSG_LIST_DIR, MSG_STAT, MSG_MKDIR, MSG_SYNC_ALL, MSG_LIST_FILES, STATUS_ERR, spec_response, encode_response};
use vstd::slice::slice_to_vec;

verus! {

/// One planned operation as the specifications see it, carrying the resolved
/// host path it acts on.
pub ghost enum RequestV {
    ReadFile(Seq<u8>),
    WriteFile(Seq<u8>),
    ListDir(Seq<u8>),
    Stat(Seq<u8>),
    Mkdir(Seq<u8>),
    ListFiles(Seq<u8>),
}

/// One planned operation, carrying the resolved host path it acts on.
pub enum Request {
    /// Stream one file's content back.
    ReadFile(Vec<u8>),
    /// Replace one file's content with the bytes that follow.
    WriteFile(Vec<u8>),
    /// List the names in one directory.
    ListDir(Vec<u8>),
    /// Report one object's size and kind.
    Stat(Vec<u8>),
    /// Create a directory and its missing parents.
    Mkdir(Vec<u8>),
    /// Send the recursive listing.
    ListFiles(Vec<u8>),
}

impl View for Request {
    type V = RequestV;

    open spec fn view(&self) -> RequestV {
        match self {
            Request::ReadFile(p) => RequestV::ReadFile(p@),
            Request::WriteFile(p) => RequestV::WriteFile(p@),
            Request::ListDir(p) => RequestV::ListDir(p@),
            Request::Stat(p) => RequestV::Stat(p@),
            Request::Mkdir(p) => RequestV::Mkdir(p@),
            Request::ListFiles(p) => RequestV::ListFiles(p@),
        }
    }
}

/// Whether a message type byte names a supported operation.
pub open spec fn spec_known_opcode(t: u8) -> bool {
    t == MSG_READ_FILE || t == MSG_WRITE_FILE || t == MSG_LIST_DIR || t == MSG_STAT || t
        == MSG_MKDIR || t == MSG_SYNC_ALL || t == MSG_LIST_FILES
}

/// What the dispatcher does with one request head: an unknown opcode is an
/// ordinary error, a path that would leave the root is refused, and anything
/// else becomes the named operation on the root-joined path.  The legacy
/// bulk-sync opcode is served as the recursive listing.
pub open spec fn spec_plan_request(root: Seq<u8>, t: u8, rel: Seq<u8>) -> Result<
    RequestV,
    FsError,
> {
    if !spec_known_opcode(t) {
        Err(FsError::InvalidArgument)
    } else if spec_escapes(rel) {
        Err(FsError::PermissionDenied)
    } else {
        let p = root + seq![SLASH] + rel;
        if t == MSG_READ_FILE {
            Ok(RequestV::ReadFile(p))
        } else if t == MSG_WRITE_FILE {
            Ok(RequestV::WriteFile(p))
        } else if t == MSG_LIST_DIR {
            Ok(RequestV::ListDir(p))
        } else if t == MSG_STAT {
            Ok(RequestV::Stat(p))
        } else if t == MSG_MKDIR {
            Ok(RequestV::Mkdir(p))
        } else {
            Ok(RequestV::ListFiles(p))
        }
    }
}

/// Plans one request: validates the opcode, confines the path to the served
/// root, and returns the operation to execute.
pub fn plan_request(root: &[u8], msg_type: u8, rel: &[u8]) -> (r: Result<Request, FsError>)
    requires
        root@.len() + rel@.len() + 1 <= usize::MAX,
    ensures
        match r {
            Ok(q) => spec_plan_request(root@, msg_type, rel@) == Ok::<RequestV, FsError>(q@),
            Err(e) => spec_plan_request(root@, msg_type, rel@) == Err::<RequestV, FsError>(e),
        },
{
    let known = msg_type == MSG_READ_FILE || msg_type == MSG_WRITE_FILE || msg_type == MSG_LIST_DIR
        || msg_type == MSG_STAT || msg_type == MSG_MKDIR || msg_type == MSG_SYNC_ALL || msg_type
        == MSG_LIST_FILES;
    if !known {
        return Err(FsError::InvalidArgument);
    }
    if path_escapes(rel) {
        return Err(FsError::PermissionDenied);
    }
    let mut p: Vec<u8> = slice_to_vec(root);
    p.push(SLASH);
    p.extend_from_slice(rel);
    proof {
        assert(p@ =~= root@ + seq![SLASH] + rel@);
    }
    if msg_type == MSG_READ_FILE {
        Ok(Request::ReadFile(p))
    } else if msg_type == MSG_WRITE_FILE {
        Ok(Request::WriteFile(p))
    } else if msg_type == MSG_LIST_DIR {
        Ok(Request::ListDir(p))
    } else if msg_type == MSG_STAT {
        Ok(Request::Stat(p))
    } else if msg_type == MSG_MKDIR {
        Ok(Request::Mkdir(p))
    } else {
        Ok(Request::ListFiles(p))
    }
}

/// Whether a failure ends the connection: only a closed channel or a framing
/// violation does; every other error is answered in a response and the
/// connection stays open.
pub fn connection_must_close(e: &FsError) -> (r: bool)
    ensures
        r == (e == FsError::ChannelClosed || e == FsError::ProtocolError),
{
    match e {
        FsError::ChannelClosed => true,
        FsError::ProtocolError => true,
        _ => false,
    }
}

/// Frames the error response for one failed request: the error status byte
/// and the human-readable cause.
pub fn error_response(e: &FsError) -> (r: Vec<u8>)
    ensures
        ({
            let msg = e.spec_wire_message_bytes();
            if msg.len() <= u32::MAX {
                r@ == spec_response(STATUS_ERR, msg)
            } else {
                r@ == spec_response(STATUS_ERR, Seq::<u8>::empty())
            }
        }),
{
    let msg: &str = e.wire_message();
    let bytes: &[u8] = msg.as_bytes();
    if bytes.len() <= u32::MAX as usize {
        encode_response(STATUS_ERR, bytes)
    } else {
        let none: [u8; 0] = [];
        let r = encode_response(STATUS_ERR, none.as_slice());
        proof {
            assert(none@ =~= Seq::<u8>::empty());
        }
        r
    }
}

} // verus!
