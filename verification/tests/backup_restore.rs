use cargo_bak::backup::{write_backup, BackupError, SourceFile};
use cargo_bak::cache_subdirs;
use cargo_bak::paths::{is_safe_name, join_under, rel_name};
use cargo_bak::restore::{plan_restore, plan_restore_opt, RestoreAction, RestoreError};
use std::io::Write;

fn file(path: &str, data: &[u8], mode: u32) -> SourceFile {
    SourceFile { path: path.to_string(), data: data.to_vec(), mode }
}

#[test]
fn backup_restore_round_trip() {
    let root = String::from("/h");
    let payload = vec![7u8; 100];
    let files = vec![file("/h/registry/cache/pkg-1.0.crate", &payload, 0o644)];
    let bytes = write_backup(&root, &files, 0).unwrap();
    let dest = String::from("/h2");
    let acts = plan_restore(&bytes, &dest).unwrap();
    assert_eq!(acts.len(), 2);
    match &acts[0] {
        RestoreAction::WriteFile { path, data } => {
            assert_eq!(path, "/h2/registry/cache/pkg-1.0.crate");
            assert_eq!(data.len(), 100);
            assert_eq!(data, &payload);
        },
        other => panic!("expected a file write, got {:?}", other),
    }
    match &acts[1] {
        RestoreAction::SetMode { path, mode } => {
            assert_eq!(path, "/h2/registry/cache/pkg-1.0.crate");
            assert_eq!(mode & 0o777, 0o644);
        },
        other => panic!("expected a mode application, got {:?}", other),
    }
}

#[test]
fn permission_round_trip() {
    let root = String::from("/h");
    let files = vec![file("/h/git/db/hook.sh", b"#!/bin/sh\n", 0o755)];
    let bytes = write_backup(&root, &files, 0).unwrap();
    let acts = plan_restore(&bytes, &root).unwrap();
    let mode = acts
        .iter()
        .find_map(|a| match a {
            RestoreAction::SetMode { mode, .. } => Some(*mode),
            _ => None,
        })
        .expect("a mode application");
    assert_eq!(mode & 0o777, 0o755);
}

#[test]
fn empty_backup_is_valid() {
    let root = String::from("/h");
    let files: Vec<SourceFile> = Vec::new();
    let bytes = write_backup(&root, &files, 0).unwrap();
    let acts = plan_restore(&bytes, &root).unwrap();
    assert!(acts.is_empty());
}

#[test]
fn missing_archive_is_noop() {
    let root = String::from("/h");
    let acts = plan_restore_opt(None, &root).unwrap();
    assert!(acts.is_empty());
}

#[test]
fn unsafe_entries_skipped() {
    let mut zw = zip::ZipWriter::new(std::io::Cursor::new(Vec::new()));
    let opts = zip::write::FileOptions::default();
    zw.start_file("../evil", opts).unwrap();
    zw.write_all(b"x").unwrap();
    zw.start_file("/etc/shadow", opts).unwrap();
    zw.write_all(b"x").unwrap();
    zw.start_file("a/../../b", opts).unwrap();
    zw.write_all(b"x").unwrap();
    zw.start_file("ok.txt", opts).unwrap();
    zw.write_all(b"ok").unwrap();
    let bytes = zw.finish().unwrap().into_inner();
    let dest = String::from("/safe");
    let acts = plan_restore(&bytes, &dest).unwrap();
    let writes: Vec<&String> = acts
        .iter()
        .filter_map(|a| match a {
            RestoreAction::WriteFile { path, .. } => Some(path),
            _ => None,
        })
        .collect();
    assert_eq!(writes, vec!["/safe/ok.txt"]);
    for a in &acts {
        let p = match a {
            RestoreAction::MakeDir { path } => path,
            RestoreAction::WriteFile { path, .. } => path,
            RestoreAction::SetMode { path, .. } => path,
            RestoreAction::Note { .. } => continue,
        };
        assert!(p.starts_with("/safe/"));
        assert!(!p.contains("evil"));
        assert!(!p.contains("shadow"));
    }
}

#[test]
fn restore_twice_same_plan() {
    let root = String::from("/h");
    let files = vec![
        file("/h/registry/index/config.json", b"{}", 0o644),
        file("/h/registry/cache/a.crate", b"aaaa", 0o644),
    ];
    let bytes = write_backup(&root, &files, 0).unwrap();
    let dest = String::from("/h2");
    let first = plan_restore(&bytes, &dest).unwrap();
    let second = plan_restore(&bytes, &dest).unwrap();
    assert_eq!(first, second);
}

#[test]
fn backup_rejects_stray_file() {
    let root = String::from("/h");
    let files = vec![file("/elsewhere/x", b"x", 0o644)];
    assert!(matches!(write_backup(&root, &files, 0), Err(BackupError::NotUnderRoot)));
}

#[test]
fn backup_rejects_bad_level() {
    let root = String::from("/h");
    let files = vec![file("/h/git/db/x", b"x", 0o644)];
    assert!(matches!(write_backup(&root, &files, 99), Err(BackupError::UnsupportedLevel)));
    assert!(matches!(write_backup(&root, &files, -8), Err(BackupError::UnsupportedLevel)));
}

#[test]
fn restore_rejects_garbage_bytes() {
    let root = String::from("/h");
    let garbage = vec![0u8; 64];
    assert!(matches!(plan_restore(&garbage, &root), Err(RestoreError::Archive(_))));
}

#[test]
fn directory_entries_become_dirs() {
    let mut zw = zip::ZipWriter::new(std::io::Cursor::new(Vec::new()));
    let opts = zip::write::FileOptions::default();
    zw.add_directory("d", opts).unwrap();
    let bytes = zw.finish().unwrap().into_inner();
    let dest = String::from("/h2");
    let acts = plan_restore(&bytes, &dest).unwrap();
    match &acts[0] {
        RestoreAction::MakeDir { path } => assert_eq!(path, "/h2/d/"),
        other => panic!("expected a directory, got {:?}", other),
    }
}

#[test]
fn multiple_files_keep_order() {
    let root = String::from("/h");
    let files = vec![
        file("/h/git/db/one", b"1", 0o644),
        file("/h/registry/cache/two", b"22", 0o600),
    ];
    let bytes = write_backup(&root, &files, 3).unwrap();
    let dest = String::from("/out");
    let acts = plan_restore(&bytes, &dest).unwrap();
    let writes: Vec<(&String, usize)> = acts
        .iter()
        .filter_map(|a| match a {
            RestoreAction::WriteFile { path, data } => Some((path, data.len())),
            _ => None,
        })
        .collect();
    assert_eq!(writes.len(), 2);
    assert_eq!(writes[0].0, "/out/git/db/one");
    assert_eq!(writes[0].1, 1);
    assert_eq!(writes[1].0, "/out/registry/cache/two");
    assert_eq!(writes[1].1, 2);
}

#[test]
fn cache_layout() {
    let dirs = cache_subdirs();
    assert_eq!(dirs, vec!["git/db", "registry/cache", "registry/index"]);
    assert_eq!(join_under("/h", "git/db"), "/h/git/db");
}

#[test]
fn safe_name_policy() {
    assert!(is_safe_name("a/b.txt"));
    assert!(is_safe_name("a/../b"));
    assert!(is_safe_name("a/./b"));
    assert!(is_safe_name("d/"));
    assert!(!is_safe_name(""));
    assert!(!is_safe_name("/abs"));
    assert!(!is_safe_name("../up"));
    assert!(!is_safe_name("a/../../b"));
    assert!(!is_safe_name("nul\0name"));
}

#[test]
fn relative_names() {
    assert_eq!(rel_name("/h", "/h/a/b"), Some(String::from("a/b")));
    assert_eq!(rel_name("/h", "/x/a"), None);
    assert_eq!(rel_name("/h", "/h"), None);
    assert_eq!(rel_name("/h", "/h/"), None);
    assert_eq!(rel_name("/h", "/hh/a"), None);
}
