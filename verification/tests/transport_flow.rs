use std::io::Write;

use jzfs::transport::{
    PackKind, Transaction, TransactionStatus, gunzip, op_kind_from_path, pack_content_type,
    pack_finish, parse_ref_changes, strip_dot_git,
};

fn receive_body() -> String {
    format!("{} {} refs/heads/main\n0000PACKdata", "0".repeat(40), "a".repeat(40))
}

#[test]
fn op_kind_decided_by_last_segment() {
    assert_eq!(op_kind_from_path("/git/o/r/git-upload-pack"), Some(PackKind::UploadPack));
    assert_eq!(op_kind_from_path("/git/o/r/git-receive-pack"), Some(PackKind::ReceivePack));
    assert_eq!(op_kind_from_path("/git/o/r/info/refs"), None);
    assert_eq!(op_kind_from_path(""), None);
}

#[test]
fn content_type_follows_operation() {
    assert_eq!(pack_content_type(PackKind::UploadPack), "application/x-git-upload-pack-result");
    assert_eq!(pack_content_type(PackKind::ReceivePack), "application/x-git-receive-pack-result");
}

#[test]
fn repo_name_suffix_stripped_once() {
    assert_eq!(strip_dot_git("proj.git"), "proj");
    assert_eq!(strip_dot_git("proj"), "proj");
    assert_eq!(strip_dot_git(".git"), "");
    assert_eq!(strip_dot_git("a.github"), "a.github");
}

#[test]
fn ref_update_lines_parsed_flush_skipped() {
    let body = receive_body();
    let changes = parse_ref_changes(&body);
    assert_eq!(changes.len(), 1);
    assert_eq!(changes[0].old_oid, "0".repeat(40));
    assert_eq!(changes[0].new_oid, "a".repeat(40));
    assert_eq!(changes[0].ref_name, "refs/heads/main");
}

#[test]
fn flush_marker_and_short_lines_declare_nothing() {
    assert!(parse_ref_changes("0000 abc refs/heads/x").is_empty());
    assert!(parse_ref_changes("only-one-token").is_empty());
    assert!(parse_ref_changes("two tokens").is_empty());
    assert!(parse_ref_changes("").is_empty());
    let crlf = "old new refs/heads/y\r\n";
    let c = parse_ref_changes(crlf);
    assert_eq!(c.len(), 1);
    assert_eq!(c[0].ref_name, "refs/heads/y");
    // everything after the second space belongs to the ref name
    let spaced = parse_ref_changes("old new refs/heads/with space");
    assert_eq!(spaced.len(), 1);
    assert_eq!(spaced[0].ref_name, "refs/heads/with space");
}

#[test]
fn successful_receive_pack_commits_and_syncs_once() {
    let mut tx = Transaction::new("data/o/r".to_string());
    assert_eq!(tx.status, TransactionStatus::Pending);
    let body = receive_body();
    tx.record_body(&body);
    assert_eq!(tx.changes.len(), 1);
    assert_eq!(tx.changes[0].ref_name, "refs/heads/main");
    let sync = pack_finish(&mut tx, PackKind::ReceivePack, true);
    assert_eq!(tx.status, TransactionStatus::Committed);
    assert!(sync);
}

#[test]
fn failed_receive_pack_rolls_back_without_sync() {
    let mut tx = Transaction::new("data/o/r".to_string());
    let body = receive_body();
    tx.record_body(&body);
    let sync = pack_finish(&mut tx, PackKind::ReceivePack, false);
    assert_eq!(tx.status, TransactionStatus::RolledBack);
    assert!(!sync);
    // the recorded changes are advisory and survive the rollback
    assert_eq!(tx.changes.len(), 1);
}

#[test]
fn successful_upload_pack_never_syncs() {
    let mut tx = Transaction::new("data/o/r".to_string());
    let sync = pack_finish(&mut tx, PackKind::UploadPack, true);
    assert_eq!(tx.status, TransactionStatus::Committed);
    assert!(!sync);
}

#[test]
fn gunzip_round_trip_and_rejection() {
    let mut enc = flate2::write::GzEncoder::new(Vec::new(), flate2::Compression::default());
    enc.write_all(b"0032want deadbeef\n").unwrap();
    let zipped = enc.finish().unwrap();
    let out = gunzip(&zipped).unwrap();
    assert_eq!(out, b"0032want deadbeef\n");
    let garbage = vec![1u8, 2, 3, 4];
    assert_eq!(gunzip(&garbage).unwrap_err(), jzfs::error::GitError::Validation);
}

#[test]
fn error_categories_are_short_strings() {
    assert_eq!(jzfs::error::GitError::NotFound.category(), "not found");
    assert_eq!(jzfs::error::GitError::Validation.category(), "validation");
    assert_eq!(jzfs::error::GitError::Io.category(), "io");
    assert_eq!(jzfs::error::GitError::Conflict.category(), "conflict");
    assert_eq!(jzfs::error::GitError::Upstream.category(), "upstream");
}

#[test]
fn no_cache_headers_are_fixed() {
    let h = jzfs::transport::no_cache_headers();
    assert_eq!(h.len(), 3);
    assert_eq!(h[0], ("Pragma", "no-cache"));
    assert_eq!(h[1], ("Cache-Control", "no-cache, max-age=0, must-revalidate"));
    assert_eq!(h[2], ("Expires", "Fri, 01 Jan 1980 00:00:00 GMT"));
}
