use runcvm_fused::header::{FuseInHeader, FuseOutHeader, FuseOpcode, create_error_response, fuse_body_len};
use runcvm_fused::errors::FsError;
use runcvm_fused::wire::{encode_request, encode_write_request, encode_response, decode_request_header, decode_response_header};

#[test]
fn test_header_size() {
    let h = FuseInHeader {
        len: 40,
        opcode: 1,
        unique: 7,
        nodeid: 1,
        uid: 0,
        gid: 0,
        pid: 42,
        padding: 0,
    };
    assert_eq!(h.encode().len(), 40);
    let o = FuseOutHeader { len: 16, error: 0, unique: 7 };
    assert_eq!(o.encode().len(), 16);
}

#[test]
fn test_in_header_round_trip() {
    let h = FuseInHeader {
        len: 64,
        opcode: 15,
        unique: 0xdead_beef_0102_0304,
        nodeid: 9,
        uid: 1000,
        gid: 1000,
        pid: 4321,
        padding: 0,
    };
    let bytes = h.encode();
    assert_eq!(FuseInHeader::decode(&bytes), Some(h));
    assert_eq!(FuseInHeader::decode(&bytes[..39]), None);
}

#[test]
fn test_out_header_round_trip() {
    let o = FuseOutHeader { len: 16, error: -38, unique: 55 };
    let bytes = o.encode();
    assert_eq!(FuseOutHeader::decode(&bytes), Some(o));
}

#[test]
fn test_create_error_response_bytes() {
    // -38 in two's complement is 0xffff_ffda.
    let r = create_error_response(7, -38);
    let expected: Vec<u8> = vec![
        16, 0, 0, 0, 0xda, 0xff, 0xff, 0xff, 7, 0, 0, 0, 0, 0, 0, 0,
    ];
    assert_eq!(r, expected);
}

#[test]
fn test_opcode_round_trip() {
    assert_eq!(FuseOpcode::from_code(1), Some(FuseOpcode::Lookup));
    assert_eq!(FuseOpcode::from_code(28), Some(FuseOpcode::Readdir));
    assert_eq!(FuseOpcode::from_code(49), Some(FuseOpcode::RemoveMapping));
    assert_eq!(FuseOpcode::from_code(7), None);
    assert_eq!(FuseOpcode::from_code(50), None);
    assert_eq!(FuseOpcode::Readdirplus.code(), 44);
    assert_eq!(
        FuseOpcode::from_code(FuseOpcode::CopyFileRange.code()),
        Some(FuseOpcode::CopyFileRange)
    );
}

#[test]
fn test_fuse_body_len() {
    let short = FuseInHeader {
        len: 39,
        opcode: 1,
        unique: 0,
        nodeid: 0,
        uid: 0,
        gid: 0,
        pid: 0,
        padding: 0,
    };
    assert_eq!(fuse_body_len(&short, 1024), Err(FsError::ProtocolError));
    let exact = FuseInHeader { len: 40, ..short };
    assert_eq!(fuse_body_len(&exact, 1024), Ok(0));
    let big = FuseInHeader { len: 40 + 2048, ..short };
    assert_eq!(fuse_body_len(&big, 1024), Err(FsError::InvalidArgument));
    let fits = FuseInHeader { len: 40 + 1024, ..short };
    assert_eq!(fuse_body_len(&fits, 1024), Ok(1024));
}

#[test]
fn test_encode_request_bytes() {
    let r = encode_request(11, b"abc");
    assert_eq!(r, vec![11, 3, 0, 0, 0, 97, 98, 99]);
}

#[test]
fn test_encode_write_request_bytes() {
    let r = encode_write_request(b"f", 258);
    assert_eq!(r, vec![2, 1, 0, 0, 0, 102, 2, 1, 0, 0]);
}

#[test]
fn test_decode_request_header() {
    let head = [4u8, 5, 0, 0, 0];
    let (opcode, len) = decode_request_header(&head);
    assert_eq!(opcode, 4);
    assert_eq!(len, 5);
}

#[test]
fn test_response_framing() {
    let r = encode_response(0, b"OK");
    assert_eq!(r, vec![0, 2, 0, 0, 0, 79, 75]);
    let (status, len) = decode_response_header(&r[..5]);
    assert_eq!(status, 0);
    assert_eq!(len, 2);
}
