use runcvm_fused::config::parse_volumes;
use runcvm_fused::errors::FsError;
use runcvm_fused::listing::{RemoteFile, format_file_list, parse_file_list, list_remote_files};
use runcvm_fused::numfmt::{u64_to_dec, parse_u64_dec};
use runcvm_fused::sync::{Snapshot, SyncAction, sync_to_host, sync_from_host, needs_download, mkdir_remote};
use runcvm_fused::chunk::{chunk_plan, split_chunks, concat_chunks};
use runcvm_fused::wire::encode_write_request;

#[test]
fn test_load_volumes() {
    let content = "/host/data:/data:rw\n/host/config:/config:ro\n";
    let volumes = parse_volumes(content);
    assert_eq!(volumes.len(), 2);
    assert_eq!(volumes[0].source, "/host/data");
    assert_eq!(volumes[0].target, "/data");
    assert_eq!(volumes[0].options, "rw");
    assert_eq!(volumes[1].source, "/host/config");
    assert_eq!(volumes[1].target, "/config");
    assert_eq!(volumes[1].options, "ro");
}

#[test]
fn test_parse_volumes_skips_junk() {
    let content = "# a comment\n\n   \nnocolonhere\n  /a:/b  \n/x:/y:opt:extra\n";
    let volumes = parse_volumes(content);
    assert_eq!(volumes.len(), 2);
    assert_eq!(volumes[0].source, "/a");
    assert_eq!(volumes[0].target, "/b");
    assert_eq!(volumes[0].options, "");
    // splitn(3) semantics: everything after the second separator is options.
    assert_eq!(volumes[1].options, "opt:extra");
}

#[test]
fn test_dec_formatting() {
    assert_eq!(u64_to_dec(0), b"0".to_vec());
    assert_eq!(u64_to_dec(1234567890), b"1234567890".to_vec());
    assert_eq!(u64_to_dec(u64::MAX), b"18446744073709551615".to_vec());
}

#[test]
fn test_dec_parsing() {
    assert_eq!(parse_u64_dec(b"0"), 0);
    assert_eq!(parse_u64_dec(b"0042"), 42);
    assert_eq!(parse_u64_dec(b"18446744073709551615"), u64::MAX);
    // Malformed or oversized fields read back as zero.
    assert_eq!(parse_u64_dec(b""), 0);
    assert_eq!(parse_u64_dec(b"12x"), 0);
    assert_eq!(parse_u64_dec(b"-5"), 0);
    assert_eq!(parse_u64_dec(b"18446744073709551616"), 0);
}

#[test]
fn test_listing_round_trip() {
    let entries = vec![
        RemoteFile::dir(b"sub".to_vec()),
        RemoteFile::file(b"sub/a.txt".to_vec(), 42, 1700000000),
        RemoteFile::file(b"b.bin".to_vec(), 0, 5),
    ];
    let body = format_file_list(&entries);
    let parsed = parse_file_list(&body);
    assert_eq!(parsed.len(), 3);
    for (orig, back) in entries.iter().zip(parsed.iter()) {
        assert_eq!(orig.path, back.path);
        assert_eq!(orig.is_dir, back.is_dir);
        assert_eq!(orig.size, back.size);
        assert_eq!(orig.mtime, back.mtime);
    }
}

#[test]
fn test_listing_format_bytes() {
    let entries = vec![RemoteFile::file(b"a".to_vec(), 7, 9)];
    let body = format_file_list(&entries);
    assert_eq!(body, b"a\tf\t7\t9\n".to_vec());
}

#[test]
fn test_parse_file_list_skips_short_lines() {
    let body = b"only\ttwo\na\tf\t1\t2\n\n";
    let parsed = parse_file_list(body);
    assert_eq!(parsed.len(), 1);
    assert_eq!(parsed[0].path, b"a".to_vec());
    assert_eq!(parsed[0].size, 1);
}

#[test]
fn test_list_remote_files_status() {
    let ok = list_remote_files(0, b"a\tf\t1\t2\n");
    assert!(matches!(ok, Ok(v) if v.len() == 1));
    let err = list_remote_files(255, b"boom");
    assert_eq!(err.err(), Some(FsError::IoFailure(255)));
}

#[test]
fn test_modified_file_uploaded_once() {
    // First interval: one file observed.
    let mut old_state = Snapshot::new();
    old_state.insert(b"doc.txt".to_vec(), 10, 100);
    old_state.insert(b"other".to_vec(), 1, 1);

    // Second interval: doc.txt was modified in between.
    let mut new_state = Snapshot::new();
    new_state.insert(b"doc.txt".to_vec(), 12, 105);
    new_state.insert(b"other".to_vec(), 1, 1);

    let plan = sync_to_host(&old_state, &new_state);
    assert_eq!(plan.len(), 1);
    assert_eq!(plan[0].path, b"doc.txt".to_vec());
    assert_eq!(plan[0].size, 12);

    // Third interval: nothing changed, so nothing is uploaded.
    let plan2 = sync_to_host(&new_state, &new_state);
    assert_eq!(plan2.len(), 0);
}

#[test]
fn test_new_file_uploaded() {
    let old_state = Snapshot::new();
    let mut new_state = Snapshot::new();
    new_state.insert(b"fresh".to_vec(), 3, 7);
    let plan = sync_to_host(&old_state, &new_state);
    assert_eq!(plan.len(), 1);
    assert_eq!(plan[0].path, b"fresh".to_vec());
}

#[test]
fn test_upload_download_round_trip() {
    // A file travels guest-to-host and back byte-identically.
    let data: Vec<u8> = (0..100000u32).map(|i| (i % 251) as u8).collect();
    let req = encode_write_request(b"dir/file", data.len() as u32);
    assert_eq!(req[0], 2);

    // The receiver reads it in bounded chunks and reassembles it.
    let chunks = split_chunks(&data, 32768);
    assert!(chunks.iter().all(|c| c.len() <= 32768));
    let rebuilt = concat_chunks(&chunks);
    assert_eq!(rebuilt, data);

    // The refreshed snapshot stops the next interval from re-transferring.
    assert!(!needs_download(Some(data.len() as u64), data.len() as u64));
    let mut local = Snapshot::new();
    local.insert(b"dir/file".to_vec(), data.len() as u64, 1234);
    let remote = vec![RemoteFile::file(b"dir/file".to_vec(), data.len() as u64, 1234)];
    let plan = sync_from_host(&remote, &local, &Vec::new());
    assert_eq!(plan.len(), 0);
}

#[test]
fn test_download_plan() {
    let mut local = Snapshot::new();
    local.insert(b"same".to_vec(), 5, 50);
    local.insert(b"changed".to_vec(), 5, 50);
    let local_dirs: Vec<Vec<u8>> = vec![b"have".to_vec()];
    let remote = vec![
        RemoteFile::dir(b"have".to_vec()),
        RemoteFile::dir(b"missing".to_vec()),
        RemoteFile::file(b"same".to_vec(), 5, 99),
        RemoteFile::file(b"changed".to_vec(), 6, 99),
        RemoteFile::file(b"new".to_vec(), 1, 1),
    ];
    let plan = sync_from_host(&remote, &local, &local_dirs);
    assert_eq!(plan.len(), 3);
    assert!(matches!(&plan[0], SyncAction::CreateDir(p) if p == &b"missing".to_vec()));
    assert!(matches!(&plan[1], SyncAction::Download(p) if p == &b"changed".to_vec()));
    assert!(matches!(&plan[2], SyncAction::Download(p) if p == &b"new".to_vec()));
}

#[test]
fn test_mkdir_remote_bytes() {
    let r = mkdir_remote(b"/data/sub");
    assert_eq!(r[0], 5);
    assert_eq!(r[1..5], [9, 0, 0, 0]);
    assert_eq!(&r[5..], b"/data/sub");
}

#[test]
fn test_chunk_plan_large_file() {
    // A 10 MB transfer with 32 KB chunks moves exactly the declared bytes.
    let total: usize = 10 * 1024 * 1024;
    let plan = chunk_plan(total, 32768);
    assert_eq!(plan.len(), 320);
    assert!(plan.iter().all(|&c| c > 0 && c <= 32768));
    let sum: usize = plan.iter().sum();
    assert_eq!(sum, total);
}

#[test]
fn test_chunk_plan_edges() {
    assert_eq!(chunk_plan(0, 32768).len(), 0);
    assert_eq!(chunk_plan(100, 32768), vec![100]);
    assert_eq!(chunk_plan(32768, 32768), vec![32768]);
    assert_eq!(chunk_plan(32769, 32768), vec![32768, 1]);
}
