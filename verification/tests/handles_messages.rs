use runcvm_fused::errors::FsError;
use runcvm_fused::handles::HandleTable;
use runcvm_fused::listing::{format_name_list, format_stat};
use runcvm_fused::message::{check_body_len, decode_message_header, Message};

#[test]
fn test_handle_lifecycle() {
    let mut table = HandleTable::new();
    let h1 = table.open(3, false, false).unwrap();
    let h2 = table.open(4, true, false).unwrap();
    assert_ne!(h1, h2);
    assert_eq!(table.len(), 2);
    assert_eq!(table.lookup(h1), Ok((3, false)));
    assert_eq!(table.lookup(h2), Ok((4, true)));
    // Closing hands the descriptor back exactly once.
    assert_eq!(table.close(h1), Ok(3));
    assert_eq!(table.close(h1), Err(FsError::Stale));
    assert_eq!(table.lookup(h1), Err(FsError::Stale));
    assert_eq!(table.len(), 1);
}

#[test]
fn test_handle_write_policy() {
    // A write request on a read-only configured volume is refused.
    let mut table = HandleTable::new();
    assert_eq!(table.open(3, true, true), Err(FsError::PermissionDenied));
    assert_eq!(table.len(), 0);
    // A read on the same volume is fine.
    assert!(table.open(3, false, true).is_ok());
}

#[test]
fn test_handle_drain_on_teardown() {
    // Connection teardown closes every handle the connection owned.
    let mut table = HandleTable::new();
    let _ = table.open(3, false, false).unwrap();
    let _ = table.open(4, false, false).unwrap();
    let h = table.open(5, true, false).unwrap();
    let fds = table.drain();
    assert_eq!(fds, vec![3, 4, 5]);
    assert_eq!(table.len(), 0);
    assert_eq!(table.lookup(h), Err(FsError::Stale));
}

#[test]
fn test_message_round_trip() {
    let m = Message { opcode: 9, correlation_id: 0x1122_3344_5566_7788, payload: b"hi".to_vec() };
    let bytes = m.encode();
    assert_eq!(bytes.len(), 18);
    let (opcode, correlation_id, body_len) = decode_message_header(&bytes[..16]);
    assert_eq!(opcode, 9);
    assert_eq!(correlation_id, 0x1122_3344_5566_7788);
    assert_eq!(body_len, 2);
    assert_eq!(&bytes[16..], b"hi");
}

#[test]
fn test_message_correlation_echoed() {
    let req = Message { opcode: 1, correlation_id: 42, payload: Vec::new() };
    let resp = req.respond(2, b"out".to_vec());
    assert_eq!(resp.correlation_id, 42);
    assert_eq!(resp.opcode, 2);
    assert_eq!(resp.payload, b"out".to_vec());
}

#[test]
fn test_body_len_rejected_before_allocation() {
    assert_eq!(check_body_len(1024, 4096), Ok(1024));
    assert_eq!(check_body_len(4097, 4096), Err(FsError::InvalidArgument));
}

#[test]
fn test_format_name_list() {
    let names: Vec<Vec<u8>> = vec![b"a".to_vec(), b"bb".to_vec(), b"c".to_vec()];
    assert_eq!(format_name_list(&names), b"a\nbb\nc".to_vec());
    assert_eq!(format_name_list(&Vec::new()), Vec::<u8>::new());
    assert_eq!(format_name_list(&vec![b"x".to_vec()]), b"x".to_vec());
}

#[test]
fn test_format_stat() {
    assert_eq!(format_stat(1234, false), b"size:1234\ntype:file\n".to_vec());
    assert_eq!(format_stat(0, true), b"size:0\ntype:dir\n".to_vec());
}
