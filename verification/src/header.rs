//! The fixed-layout headers of the kernel-message bridge, decoded field by
//! field with explicit bounds checks — no byte buffer is ever reinterpreted
//! as a record.

use vstd::prelude::*;
use vstd::bytes::{spec_u32_to_le_bytes, spec_u32_from_le_bytes, spec_u64_to_le_bytes, spec_u64_from_le_bytes, lemma_auto_spec_u32_to_from_le_bytes, lemma_auto_spec_u64_to_from_le_bytes, u32_to_le_bytes, u32_from_le_bytes, u64_to_le_bytes, u64_from_le_bytes};
use vstd::slice::slice_subrange;
use crate::errors::FsError;

verus! {

/// Encoded size of a request header.
pub const FUSE_IN_HEADER_LEN: usize = 40;

/// Encoded size of a response header.
pub const FUSE_OUT_HEADER_LEN: usize = 16;

/// The two's-complement image of a signed status code in a 32-bit field.
pub open spec fn spec_i32_as_u32(e: int) -> u32
    recommends
        i32::MIN <= e <= i32::MAX,
{
    if e >= 0 {
        e as u32
    } else {
        (e + 0x1_0000_0000) as u32
    }
}

/// The signed status code a 32-bit field carries.
pub open spec fn spec_u32_as_i32(u: u32) -> int {
    if u <= i32::MAX as u32 {
        u as int
    } else {
        u - 0x1_0000_0000
    }
}

/// Writes a status code into its 32-bit field.
pub fn i32_to_u32(e: i32) -> (r: u32)
    ensures
        r == spec_i32_as_u32(e as int),
{
    if e >= 0 {
        e as u32
    } else {
        let wide: i64 = e as i64 + 0x1_0000_0000;
        wide as u32
    }
}

/// Reads a status code back out of its 32-bit field.
pub fn u32_to_i32(u: u32) -> (r: i32)
    ensures
        r as int == spec_u32_as_i32(u),
{
    if u <= 0x7fff_ffff {
        u as i32
    } else {
        let wide: i64 = u as i64 - 0x1_0000_0000;
        wide as i32
    }
}

/// The 32-bit status field round-trips every `i32`.
pub proof fn lemma_i32_round_trip(e: i32)
    ensures
        spec_u32_as_i32(spec_i32_as_u32(e as int)) == e as int,
{
}

/// Header of one bridged kernel request: total message length, operation,
/// correlation number, object identifier, and the caller's credentials.
#[derive(Debug, Clone, Copy, PartialEq, Eq, Structural)]
pub struct FuseInHeader {
    pub len: u32,
    pub opcode: u32,
    pub unique: u64,
    pub nodeid: u64,
    pub uid: u32,
    pub gid: u32,
    pub pid: u32,
    pub padding: u32,
}

impl FuseInHeader {
    /// The 40 little-endian bytes of this header on the wire.
    pub open spec fn spec_encode(self) -> Seq<u8> {
        spec_u32_to_le_bytes(self.len) + spec_u32_to_le_bytes(self.opcode) + spec_u64_to_le_bytes(
            self.unique,
        ) + spec_u64_to_le_bytes(self.nodeid) + spec_u32_to_le_bytes(self.uid)
            + spec_u32_to_le_bytes(self.gid) + spec_u32_to_le_bytes(self.pid)
            + spec_u32_to_le_bytes(self.padding)
    }

    /// The header a 40-byte buffer holds.
    pub open spec fn spec_decode(b: Seq<u8>) -> FuseInHeader
        recommends
            b.len() == FUSE_IN_HEADER_LEN,
    {
        FuseInHeader {
            len: spec_u32_from_le_bytes(b.subrange(0, 4)),
            opcode: spec_u32_from_le_bytes(b.subrange(4, 8)),
            unique: spec_u64_from_le_bytes(b.subrange(8, 16)),
            nodeid: spec_u64_from_le_bytes(b.subrange(16, 24)),
            uid: spec_u32_from_le_bytes(b.subrange(24, 28)),
            gid: spec_u32_from_le_bytes(b.subrange(28, 32)),
            pid: spec_u32_from_le_bytes(b.subrange(32, 36)),
            padding: spec_u32_from_le_bytes(b.subrange(36, 40)),
        }
    }

    /// Encodes this header for the wire.
    pub fn encode(&self) -> (r: Vec<u8>)
        ensures
            r@ == self.spec_encode(),
            r@.len() == FUSE_IN_HEADER_LEN,
    {
        let mut out: Vec<u8> = Vec::new();
        let mut piece: Vec<u8> = u32_to_le_bytes(self.len);
        out.append(&mut piece);
        let mut piece: Vec<u8> = u32_to_le_bytes(self.opcode);
        out.append(&mut piece);
        let mut piece: Vec<u8> = u64_to_le_bytes(self.unique);
        out.append(&mut piece);
        let mut piece: Vec<u8> = u64_to_le_bytes(self.nodeid);
        out.append(&mut piece);
        let mut piece: Vec<u8> = u32_to_le_bytes(self.uid);
        out.append(&mut piece);
        let mut piece: Vec<u8> = u32_to_le_bytes(self.gid);
        out.append(&mut piece);
        let mut piece: Vec<u8> = u32_to_le_bytes(self.pid);
        out.append(&mut piece);
        let mut piece: Vec<u8> = u32_to_le_bytes(self.padding);
        out.append(&mut piece);
        proof {
            assert(out@ =~= self.spec_encode());
        }
        out
    }

    /// Decodes a header, rejecting a buffer of the wrong size.
    pub fn decode(b: &[u8]) -> (r: Option<FuseInHeader>)
        ensures
            b@.len() == FUSE_IN_HEADER_LEN ==> r == Some(Self::spec_decode(b@)),
            b@.len() != FUSE_IN_HEADER_LEN ==> r is None,
    {
        if b.len() != FUSE_IN_HEADER_LEN {
            return None;
        }
        let h = FuseInHeader {
            len: u32_from_le_bytes(slice_subrange(b, 0, 4)),
            opcode: u32_from_le_bytes(slice_subrange(b, 4, 8)),
            unique: u64_from_le_bytes(slice_subrange(b, 8, 16)),
            nodeid: u64_from_le_bytes(slice_subrange(b, 16, 24)),
            uid: u32_from_le_bytes(slice_subrange(b, 24, 28)),
            gid: u32_from_le_bytes(slice_subrange(b, 28, 32)),
            pid: u32_from_le_bytes(slice_subrange(b, 32, 36)),
            padding: u32_from_le_bytes(slice_subrange(b, 36, 40)),
        };
        Some(h)
    }
}

/// A request header survives the wire: decoding an encoded header yields the
/// header itself.
pub proof fn lemma_in_header_round_trip(h: FuseInHeader)
    ensures
        FuseInHeader::spec_decode(h.spec_encode()) == h,
{
    lemma_auto_spec_u32_to_from_le_bytes();
    lemma_auto_spec_u64_to_from_le_bytes();
    let b = h.spec_encode();
    assert(b.subrange(0, 4) =~= spec_u32_to_le_bytes(h.len));
    assert(b.subrange(4, 8) =~= spec_u32_to_le_bytes(h.opcode));
    assert(b.subrange(8, 16) =~= spec_u64_to_le_bytes(h.unique));
    assert(b.subrange(16, 24) =~= spec_u64_to_le_bytes(h.nodeid));
    assert(b.subrange(24, 28) =~= spec_u32_to_le_bytes(h.uid));
    assert(b.subrange(28, 32) =~= spec_u32_to_le_bytes(h.gid));
    assert(b.subrange(32, 36) =~= spec_u32_to_le_bytes(h.pid));
    assert(b.subrange(36, 40) =~= spec_u32_to_le_bytes(h.padding));
}

/// Header of one bridged response: total length, status, and the echoed
/// correlation number.
#[derive(Debug, Clone, Copy, PartialEq, Eq, Structural)]
pub struct FuseOutHeader {
    pub len: u32,
    pub error: i32,
    pub unique: u64,
}

impl FuseOutHeader {
    /// The 16 little-endian bytes of this header on the wire.
    pub open spec fn spec_encode(self) -> Seq<u8> {
        spec_u32_to_le_bytes(self.len) + spec_u32_to_le_bytes(spec_i32_as_u32(self.error as int))
            + spec_u64_to_le_bytes(self.unique)
    }

    /// The header a 16-byte buffer holds.
    pub open spec fn spec_decode(b: Seq<u8>) -> FuseOutHeader
        recommends
            b.len() == FUSE_OUT_HEADER_LEN,
    {
        FuseOutHeader {
            len: spec_u32_from_le_bytes(b.subrange(0, 4)),
            error: spec_u32_as_i32(spec_u32_from_le_bytes(b.subrange(4, 8))) as i32,
            unique: spec_u64_from_le_bytes(b.subrange(8, 16)),
        }
    }

    /// Encodes this header for the wire.
    pub fn encode(&self) -> (r: Vec<u8>)
        ensures
            r@ == self.spec_encode(),
            r@.len() == FUSE_OUT_HEADER_LEN,
    {
        let mut out: Vec<u8> = Vec::new();
        let mut piece: Vec<u8> = u32_to_le_bytes(self.len);
        out.append(&mut piece);
        let mut piece: Vec<u8> = u32_to_le_bytes(i32_to_u32(self.error));
        out.append(&mut piece);
        let mut piece: Vec<u8> = u64_to_le_bytes(self.unique);
        out.append(&mut piece);
        proof {
            assert(out@ =~= self.spec_encode());
        }
        out
    }

    /// Decodes a header, rejecting a buffer of the wrong size.
    pub fn decode(b: &[u8]) -> (r: Option<FuseOutHeader>)
        ensures
            b@.len() == FUSE_OUT_HEADER_LEN ==> r == Some(Self::spec_decode(b@)),
            b@.len() != FUSE_OUT_HEADER_LEN ==> r is None,
    {
        if b.len() != FUSE_OUT_HEADER_LEN {
            return None;
        }
        let h = FuseOutHeader {
            len: u32_from_le_bytes(slice_subrange(b, 0, 4)),
            error: u32_to_i32(u32_from_le_bytes(slice_subrange(b, 4, 8))),
            unique: u64_from_le_bytes(slice_subrange(b, 8, 16)),
        };
        Some(h)
    }
}

/// A response header survives the wire in the same way.
pub proof fn lemma_out_header_round_trip(h: FuseOutHeader)
    ensures
        FuseOutHeader::spec_decode(h.spec_encode()) == h,
{
    lemma_auto_spec_u32_to_from_le_bytes();
    lemma_auto_spec_u64_to_from_le_bytes();
    let b = h.spec_encode();
    assert(b.subrange(0, 4) =~= spec_u32_to_le_bytes(h.len));
    assert(b.subrange(4, 8) =~= spec_u32_to_le_bytes(spec_i32_as_u32(h.error as int)));
    assert(b.subrange(8, 16) =~= spec_u64_to_le_bytes(h.unique));
    lemma_i32_round_trip(h.error);
}

/// The bare error response to one bridged request: a response header whose
/// length covers the header alone.
pub fn create_error_response(unique: u64, error: i32) -> (r: Vec<u8>)
    ensures
        r@ == (FuseOutHeader { len: FUSE_OUT_HEADER_LEN as u32, error, unique }).spec_encode(),
        r@.len() == FUSE_OUT_HEADER_LEN,
{
    let h = FuseOutHeader { len: FUSE_OUT_HEADER_LEN as u32, error, unique };
    h.encode()
}

/// Validates a request header's declared length before anything is
/// allocated: the length must cover the header itself, and the body must not
/// exceed the configured maximum.
pub fn fuse_body_len(h: &FuseInHeader, max_body: u32) -> (r: Result<u32, FsError>)
    ensures
        match r {
            Ok(n) => h.len >= FUSE_IN_HEADER_LEN && n == h.len - FUSE_IN_HEADER_LEN && n
                <= max_body,
            Err(e) => (h.len < FUSE_IN_HEADER_LEN && e == FsError::ProtocolError) || (h.len
                >= FUSE_IN_HEADER_LEN && h.len - FUSE_IN_HEADER_LEN > max_body && e
                == FsError::InvalidArgument),
        },
{
    if h.len < FUSE_IN_HEADER_LEN as u32 {
        return Err(FsError::ProtocolError);
    }
    let body = h.len - FUSE_IN_HEADER_LEN as u32;
    if body > max_body {
        return Err(FsError::InvalidArgument);
    }
    Ok(body)
}


/// The operation set of the kernel-message bridge, one variant per supported
/// opcode; an unknown opcode on the wire is an ordinary error, never a
/// panic.
#[derive(Debug, Clone, Copy, PartialEq, Eq, Structural)]
pub enum FuseOpcode {
    Lookup,
    Forget,
    Getattr,
    Setattr,
    Readlink,
    Symlink,
    Mknod,
    Mkdir,
    Unlink,
    Rmdir,
    Rename,
    Link,
    Open,
    Read,
    Write,
    Statfs,
    Release,
    Fsync,
    Setxattr,
    Getxattr,
    Listxattr,
    Removexattr,
    Flush,
    Init,
    Opendir,
    Readdir,
    Releasedir,
    Fsyncdir,
    Getlk,
    Setlk,
    Setlkw,
    Access,
    Create,
    Interrupt,
    Bmap,
    Destroy,
    Ioctl,
    Poll,
    NotifyReply,
    BatchForget,
    Fallocate,
    Readdirplus,
    Rename2,
    Lseek,
    CopyFileRange,
    SetupMapping,
    RemoveMapping,
}

impl FuseOpcode {
    /// The numeric opcode of this operation on the wire.
    pub open spec fn spec_code(self) -> u32 {
        match self {
            FuseOpcode::Lookup => 1,
            FuseOpcode::Forget => 2,
            FuseOpcode::Getattr => 3,
            FuseOpcode::Setattr => 4,
            FuseOpcode::Readlink => 5,
            FuseOpcode::Symlink => 6,
            FuseOpcode::Mknod => 8,
            FuseOpcode::Mkdir => 9,
            FuseOpcode::Unlink => 10,
            FuseOpcode::Rmdir => 11,
            FuseOpcode::Rename => 12,
            FuseOpcode::Link => 13,
            FuseOpcode::Open => 14,
            FuseOpcode::Read => 15,
            FuseOpcode::Write => 16,
            FuseOpcode::Statfs => 17,
            FuseOpcode::Release => 18,
            FuseOpcode::Fsync => 20,
            FuseOpcode::Setxattr => 21,
            FuseOpcode::Getxattr => 22,
            FuseOpcode::Listxattr => 23,
            FuseOpcode::Removexattr => 24,
            FuseOpcode::Flush => 25,
            FuseOpcode::Init => 26,
            FuseOpcode::Opendir => 27,
            FuseOpcode::Readdir => 28,
            FuseOpcode::Releasedir => 29,
            FuseOpcode::Fsyncdir => 30,
            FuseOpcode::Getlk => 31,
            FuseOpcode::Setlk => 32,
            FuseOpcode::Setlkw => 33,
            FuseOpcode::Access => 34,
            FuseOpcode::Create => 35,
            FuseOpcode::Interrupt => 36,
            FuseOpcode::Bmap => 37,
            FuseOpcode::Destroy => 38,
            FuseOpcode::Ioctl => 39,
            FuseOpcode::Poll => 40,
            FuseOpcode::NotifyReply => 41,
            FuseOpcode::BatchForget => 42,
            FuseOpcode::Fallocate => 43,
            FuseOpcode::Readdirplus => 44,
            FuseOpcode::Rename2 => 45,
            FuseOpcode::Lseek => 46,
            FuseOpcode::CopyFileRange => 47,
            FuseOpcode::SetupMapping => 48,
            FuseOpcode::RemoveMapping => 49,
        }
    }

    /// Exec mirror of `spec_code`.
    pub fn code(&self) -> (r: u32)
        ensures
            r == self.spec_code(),
    {
        match self {
            FuseOpcode::Lookup => 1,
            FuseOpcode::Forget => 2,
            FuseOpcode::Getattr => 3,
            FuseOpcode::Setattr => 4,
            FuseOpcode::Readlink => 5,
            FuseOpcode::Symlink => 6,
            FuseOpcode::Mknod => 8,
            FuseOpcode::Mkdir => 9,
            FuseOpcode::Unlink => 10,
            FuseOpcode::Rmdir => 11,
            FuseOpcode::Rename => 12,
            FuseOpcode::Link => 13,
            FuseOpcode::Open => 14,
            FuseOpcode::Read => 15,
            FuseOpcode::Write => 16,
            FuseOpcode::Statfs => 17,
            FuseOpcode::Release => 18,
            FuseOpcode::Fsync => 20,
            FuseOpcode::Setxattr => 21,
            FuseOpcode::Getxattr => 22,
            FuseOpcode::Listxattr => 23,
            FuseOpcode::Removexattr => 24,
            FuseOpcode::Flush => 25,
            FuseOpcode::Init => 26,
            FuseOpcode::Opendir => 27,
            FuseOpcode::Readdir => 28,
            FuseOpcode::Releasedir => 29,
            FuseOpcode::Fsyncdir => 30,
            FuseOpcode::Getlk => 31,
            FuseOpcode::Setlk => 32,
            FuseOpcode::Setlkw => 33,
            FuseOpcode::Access => 34,
            FuseOpcode::Create => 35,
            FuseOpcode::Interrupt => 36,
            FuseOpcode::Bmap => 37,
            FuseOpcode::Destroy => 38,
            FuseOpcode::Ioctl => 39,
            FuseOpcode::Poll => 40,
            FuseOpcode::NotifyReply => 41,
            FuseOpcode::BatchForget => 42,
            FuseOpcode::Fallocate => 43,
            FuseOpcode::Readdirplus => 44,
            FuseOpcode::Rename2 => 45,
            FuseOpcode::Lseek => 46,
            FuseOpcode::CopyFileRange => 47,
            FuseOpcode::SetupMapping => 48,
            FuseOpcode::RemoveMapping => 49,
        }
    }

    /// The operation a numeric opcode names, if any.
    pub open spec fn spec_from_code(c: u32) -> Option<FuseOpcode> {
        if c == 1 {
            Some(FuseOpcode::Lookup)
        } else if c == 2 {
            Some(FuseOpcode::Forget)
        } else if c == 3 {
            Some(FuseOpcode::Getattr)
        } else if c == 4 {
            Some(FuseOpcode::Setattr)
        } else if c == 5 {
            Some(FuseOpcode::Readlink)
        } else if c == 6 {
            Some(FuseOpcode::Symlink)
        } else if c == 8 {
            Some(FuseOpcode::Mknod)
        } else if c == 9 {
            Some(FuseOpcode::Mkdir)
        } else if c == 10 {
            Some(FuseOpcode::Unlink)
        } else if c == 11 {
            Some(FuseOpcode::Rmdir)
        } else if c == 12 {
            Some(FuseOpcode::Rename)
        } else if c == 13 {
            Some(FuseOpcode::Link)
        } else if c == 14 {
            Some(FuseOpcode::Open)
        } else if c == 15 {
            Some(FuseOpcode::Read)
        } else if c == 16 {
            Some(FuseOpcode::Write)
        } else if c == 17 {
            Some(FuseOpcode::Statfs)
        } else if c == 18 {
            Some(FuseOpcode::Release)
        } else if c == 20 {
            Some(FuseOpcode::Fsync)
        } else if c == 21 {
            Some(FuseOpcode::Setxattr)
        } else if c == 22 {
            Some(FuseOpcode::Getxattr)
        } else if c == 23 {
            Some(FuseOpcode::Listxattr)
        } else if c == 24 {
            Some(FuseOpcode::Removexattr)
        } else if c == 25 {
            Some(FuseOpcode::Flush)
        } else if c == 26 {
            Some(FuseOpcode::Init)
        } else if c == 27 {
            Some(FuseOpcode::Opendir)
        } else if c == 28 {
            Some(FuseOpcode::Readdir)
        } else if c == 29 {
            Some(FuseOpcode::Releasedir)
        } else if c == 30 {
            Some(FuseOpcode::Fsyncdir)
        } else if c == 31 {
            Some(FuseOpcode::Getlk)
        } else if c == 32 {
            Some(FuseOpcode::Setlk)
        } else if c == 33 {
            Some(FuseOpcode::Setlkw)
        } else if c == 34 {
            Some(FuseOpcode::Access)
        } else if c == 35 {
            Some(FuseOpcode::Create)
        } else if c == 36 {
            Some(FuseOpcode::Interrupt)
        } else if c == 37 {
            Some(FuseOpcode::Bmap)
        } else if c == 38 {
            Some(FuseOpcode::Destroy)
        } else if c == 39 {
            Some(FuseOpcode::Ioctl)
        } else if c == 40 {
            Some(FuseOpcode::Poll)
        } else if c == 41 {
            Some(FuseOpcode::NotifyReply)
        } else if c == 42 {
            Some(FuseOpcode::BatchForget)
        } else if c == 43 {
            Some(FuseOpcode::Fallocate)
        } else if c == 44 {
            Some(FuseOpcode::Readdirplus)
        } else if c == 45 {
            Some(FuseOpcode::Rename2)
        } else if c == 46 {
            Some(FuseOpcode::Lseek)
        } else if c == 47 {
            Some(FuseOpcode::CopyFileRange)
        } else if c == 48 {
            Some(FuseOpcode::SetupMapping)
        } else if c == 49 {
            Some(FuseOpcode::RemoveMapping)
        } else {
            None
        }
    }

    /// Exec mirror of `spec_from_code`.
    pub fn from_code(c: u32) -> (r: Option<FuseOpcode>)
        ensures
            r == Self::spec_from_code(c),
    {
        if c == 1 {
            Some(FuseOpcode::Lookup)
        } else if c == 2 {
            Some(FuseOpcode::Forget)
        } else if c == 3 {
            Some(FuseOpcode::Getattr)
        } else if c == 4 {
            Some(FuseOpcode::Setattr)
        } else if c == 5 {
            Some(FuseOpcode::Readlink)
        } else if c == 6 {
            Some(FuseOpcode::Symlink)
        } else if c == 8 {
            Some(FuseOpcode::Mknod)
        } else if c == 9 {
            Some(FuseOpcode::Mkdir)
        } else if c == 10 {
            Some(FuseOpcode::Unlink)
        } else if c == 11 {
            Some(FuseOpcode::Rmdir)
        } else if c == 12 {
            Some(FuseOpcode::Rename)
        } else if c == 13 {
            Some(FuseOpcode::Link)
        } else if c == 14 {
            Some(FuseOpcode::Open)
        } else if c == 15 {
            Some(FuseOpcode::Read)
        } else if c == 16 {
            Some(FuseOpcode::Write)
        } else if c == 17 {
            Some(FuseOpcode::Statfs)
        } else if c == 18 {
            Some(FuseOpcode::Release)
        } else if c == 20 {
            Some(FuseOpcode::Fsync)
        } else if c == 21 {
            Some(FuseOpcode::Setxattr)
        } else if c == 22 {
            Some(FuseOpcode::Getxattr)
        } else if c == 23 {
            Some(FuseOpcode::Listxattr)
        } else if c == 24 {
            Some(FuseOpcode::Removexattr)
        } else if c == 25 {
            Some(FuseOpcode::Flush)
        } else if c == 26 {
            Some(FuseOpcode::Init)
        } else if c == 27 {
            Some(FuseOpcode::Opendir)
        } else if c == 28 {
            Some(FuseOpcode::Readdir)
        } else if c == 29 {
            Some(FuseOpcode::Releasedir)
        } else if c == 30 {
            Some(FuseOpcode::Fsyncdir)
        } else if c == 31 {
            Some(FuseOpcode::Getlk)
        } else if c == 32 {
            Some(FuseOpcode::Setlk)
        } else if c == 33 {
            Some(FuseOpcode::Setlkw)
        } else if c == 34 {
            Some(FuseOpcode::Access)
        } else if c == 35 {
            Some(FuseOpcode::Create)
        } else if c == 36 {
            Some(FuseOpcode::Interrupt)
        } else if c == 37 {
            Some(FuseOpcode::Bmap)
        } else if c == 38 {
            Some(FuseOpcode::Destroy)
        } else if c == 39 {
            Some(FuseOpcode::Ioctl)
        } else if c == 40 {
            Some(FuseOpcode::Poll)
        } else if c == 41 {
            Some(FuseOpcode::NotifyReply)
        } else if c == 42 {
            Some(FuseOpcode::BatchForget)
        } else if c == 43 {
            Some(FuseOpcode::Fallocate)
        } else if c == 44 {
            Some(FuseOpcode::Readdirplus)
        } else if c == 45 {
            Some(FuseOpcode::Rename2)
        } else if c == 46 {
            Some(FuseOpcode::Lseek)
        } else if c == 47 {
            Some(FuseOpcode::CopyFileRange)
        } else if c == 48 {
            Some(FuseOpcode::SetupMapping)
        } else if c == 49 {
            Some(FuseOpcode::RemoveMapping)
        } else {
            None
        }
    }
}

/// The numbering is faithful both ways: every operation is recovered from
/// its code, and every recognized code maps back to itself.
pub proof fn lemma_opcode_round_trip()
    ensures
        forall|op: FuseOpcode| FuseOpcode::spec_from_code(#[trigger] op.spec_code()) == Some(op),
        forall|c: u32, op: FuseOpcode|
            #![trigger FuseOpcode::spec_from_code(c), op.spec_code()]
            FuseOpcode::spec_from_code(c) == Some(op) ==> op.spec_code() == c,
{
}

} // verus!
