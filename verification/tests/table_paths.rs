use runcvm_fused::idtable::{IdTable, ROOT_ID};
use runcvm_fused::errors::FsError;
use runcvm_fused::contain::{path_escapes, resolve_under_root};
use runcvm_fused::bridge::{Request, plan_request, connection_must_close, error_response};
use runcvm_fused::enumerate::readdir_page;

#[test]
fn test_materialize_idempotent() {
    let mut table = IdTable::new(b"/srv/vol".to_vec());
    let id1 = table.materialize(b"/srv/vol/a");
    let id2 = table.materialize(b"/srv/vol/a");
    assert_eq!(id1, id2);
    // A partial release keeps the path live under the same identifier.
    table.release(id1, 1);
    let id3 = table.materialize(b"/srv/vol/a");
    assert_eq!(id1, id3);
    // A different path gets a different identifier.
    let other = table.materialize(b"/srv/vol/b");
    assert_ne!(other, id1);
}

#[test]
fn test_release_to_zero_stales() {
    let mut table = IdTable::new(b"/srv/vol".to_vec());
    let id = table.materialize(b"/srv/vol/a");
    let _ = table.materialize(b"/srv/vol/a");
    assert_eq!(table.refcount_of(id), 2);
    assert!(table.path_of(id).is_ok());
    table.release(id, 2);
    assert_eq!(table.path_of(id), Err(FsError::Stale));
    assert_eq!(table.refcount_of(id), 0);
}

#[test]
fn test_release_clamps_defensively() {
    let mut table = IdTable::new(b"/srv/vol".to_vec());
    let id = table.materialize(b"/srv/vol/a");
    // Over-releasing must clamp to reclamation, never underflow.
    table.release(id, 1000);
    assert_eq!(table.path_of(id), Err(FsError::Stale));
}

#[test]
fn test_root_fixed_and_never_recycled() {
    let mut table = IdTable::new(b"/srv/vol".to_vec());
    assert_eq!(table.materialize(b"/srv/vol"), ROOT_ID);
    table.release(ROOT_ID, 1000);
    assert_eq!(table.path_of(ROOT_ID), Ok(b"/srv/vol".to_vec()));
    assert_eq!(table.materialize(b"/srv/vol"), ROOT_ID);
}

#[test]
fn test_reclaimed_identifier_not_reused() {
    let mut table = IdTable::new(b"/srv/vol".to_vec());
    let id = table.materialize(b"/srv/vol/gone");
    table.release(id, 1);
    // The same path materialized afresh gets a new identifier; the old one
    // stays stale.
    let fresh = table.materialize(b"/srv/vol/gone");
    assert_ne!(fresh, id);
    assert_eq!(table.path_of(id), Err(FsError::Stale));
}

#[test]
fn test_read_after_delete_keeps_connection() {
    // A read against a path whose backing file vanished is answered with an
    // error response, and the connection stays open for further requests.
    let mut table = IdTable::new(b"/srv/vol".to_vec());
    let id = table.materialize(b"/srv/vol/gone.txt");
    let path = table.path_of(id).unwrap();
    assert_eq!(path, b"/srv/vol/gone.txt".to_vec());
    // The native read fails with "not found"; the framed error names it and
    // does not end the connection.
    let resp = error_response(&FsError::NotFound);
    assert_eq!(resp[0], 255);
    assert_eq!(&resp[5..], b"not found");
    assert!(!connection_must_close(&FsError::NotFound));
    // The dispatcher keeps serving: the next request still plans.
    let next = plan_request(b"/srv/vol", 4, b"still/here");
    assert!(next.is_ok());
}

#[test]
fn test_release_all_on_teardown() {
    let mut table = IdTable::new(b"/srv/vol".to_vec());
    let a = table.materialize(b"/srv/vol/a");
    let b = table.materialize(b"/srv/vol/b");
    table.release_all();
    assert_eq!(table.path_of(a), Err(FsError::Stale));
    assert_eq!(table.path_of(b), Err(FsError::Stale));
    // The root survives, and numbering continues: nothing is recycled.
    assert_eq!(table.path_of(ROOT_ID), Ok(b"/srv/vol".to_vec()));
    let fresh = table.materialize(b"/srv/vol/a");
    assert_ne!(fresh, a);
    assert_ne!(fresh, b);
}

#[test]
fn test_resolve_child() {
    let mut table = IdTable::new(b"/srv/vol".to_vec());
    let id = table.resolve_child(ROOT_ID, b"sub").unwrap();
    assert_eq!(table.path_of(id), Ok(b"/srv/vol/sub".to_vec()));
    let nested = table.resolve_child(id, b"leaf").unwrap();
    assert_eq!(table.path_of(nested), Ok(b"/srv/vol/sub/leaf".to_vec()));
    // Containment is enforced at resolution as well.
    assert_eq!(table.resolve_child(ROOT_ID, b"../escape"), Err(FsError::PermissionDenied));
    // A stale parent fails, never a silent no-op.
    table.release(id, 1);
    assert_eq!(table.resolve_child(id, b"x"), Err(FsError::Stale));
}

#[test]
fn test_connection_fate() {
    assert!(connection_must_close(&FsError::ChannelClosed));
    assert!(connection_must_close(&FsError::ProtocolError));
    assert!(!connection_must_close(&FsError::NotFound));
    assert!(!connection_must_close(&FsError::PermissionDenied));
    assert!(!connection_must_close(&FsError::IoFailure(5)));
}

#[test]
fn test_path_escape_depths() {
    // Containment holds for every depth of `..` nesting.
    assert!(path_escapes(b".."));
    assert!(path_escapes(b"../.."));
    assert!(path_escapes(b"../../.."));
    assert!(path_escapes(b"../../../../../../.."));
    assert!(path_escapes(b"a/../.."));
    assert!(path_escapes(b"a/b/../../.."));
    assert!(path_escapes(b"../a/b"));
    assert!(path_escapes(b"a/../../b"));
    assert!(!path_escapes(b"a/../b"));
    assert!(!path_escapes(b"a/b/c"));
    assert!(!path_escapes(b"./a//b"));
    assert!(!path_escapes(b""));
}

#[test]
fn test_resolve_under_root() {
    let ok = resolve_under_root(b"/srv/vol", b"sub/f.txt");
    assert_eq!(ok, Ok(b"/srv/vol/sub/f.txt".to_vec()));
    let denied = resolve_under_root(b"/srv/vol", b"../secret");
    assert_eq!(denied, Err(FsError::PermissionDenied));
}

#[test]
fn test_plan_request_mapping() {
    let root: &[u8] = b"/srv";
    assert!(matches!(plan_request(root, 1, b"f"), Ok(Request::ReadFile(p)) if p == b"/srv/f".to_vec()));
    assert!(matches!(plan_request(root, 2, b"f"), Ok(Request::WriteFile(_))));
    assert!(matches!(plan_request(root, 3, b"d"), Ok(Request::ListDir(_))));
    assert!(matches!(plan_request(root, 4, b"f"), Ok(Request::Stat(_))));
    assert!(matches!(plan_request(root, 5, b"d"), Ok(Request::Mkdir(_))));
    assert!(matches!(plan_request(root, 11, b""), Ok(Request::ListFiles(_))));
    // The legacy bulk-sync opcode is served as the recursive listing.
    assert!(matches!(plan_request(root, 10, b""), Ok(Request::ListFiles(_))));
    // An unknown opcode is an ordinary error, never a panic.
    assert!(matches!(plan_request(root, 99, b"f"), Err(FsError::InvalidArgument)));
    // A path that would leave the root is refused.
    assert!(matches!(plan_request(root, 1, b"../pw"), Err(FsError::PermissionDenied)));
}

#[test]
fn test_enumeration_exhaustive() {
    // Directories of 0, 1 and >1000 entries are enumerated exactly once.
    for n in [0usize, 1, 1500] {
        let entries: Vec<Vec<u8>> = (0..n).map(|i| format!("entry{}", i).into_bytes()).collect();
        let mut seen: Vec<Vec<u8>> = Vec::new();
        let mut offset: usize = 0;
        loop {
            let page = readdir_page(&entries, offset, 100);
            if page.is_empty() {
                break;
            }
            offset += page.len();
            seen.extend(page);
        }
        assert_eq!(seen, entries);
    }
}

#[test]
fn test_enumeration_pages_bounded() {
    let entries: Vec<Vec<u8>> = (0..250usize).map(|i| vec![i as u8]).collect();
    let first = readdir_page(&entries, 0, 100);
    assert_eq!(first.len(), 100);
    let last = readdir_page(&entries, 200, 100);
    assert_eq!(last.len(), 50);
    let past = readdir_page(&entries, 400, 100);
    assert_eq!(past.len(), 0);
}
