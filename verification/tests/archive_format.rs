use winrehome::archive::{
    ArchiveFormatError, ArchiveManifest, ArchivedFileEntry, EntryCheckError, PendingFile, RestorePathError,
    RestorePlanError, RestoreSelection, RestoreTargetPlanner, check_entry_payload, check_format_version,
    collect_selected_restore_entries, encode_entry, encode_footer, header_magic_bytes, locate_manifest,
    plan_restore_targets, sanitize_relative_path, sanitize_segment, validate_restore_relative_path,
};

fn entry(path: &str, kind: &str) -> ArchivedFileEntry {
    ArchivedFileEntry {
        source_path: "src".to_string(),
        archive_path: path.to_string(),
        entry_kind: kind.to_string(),
        offset: 4,
        stored_size: 1,
        original_size: 5,
        crc32: 0,
    }
}

fn manifest(files: Vec<ArchivedFileEntry>) -> ArchiveManifest {
    ArchiveManifest {
        format_version: 1,
        created_at_unix: 10,
        app_name: "WinRehome".to_string(),
        app_version: "0.1.0".to_string(),
        installed_apps: vec![],
        selected_user_roots: vec![],
        selected_portable_apps: vec![],
        files,
        original_bytes: 0,
        stored_bytes: 0,
    }
}

fn selection(roots: &[&str]) -> RestoreSelection {
    RestoreSelection {
        restore_user_data: true,
        restore_portable_apps: true,
        restore_installed_app_dirs: true,
        selected_roots: roots.iter().map(|r| r.to_string()).collect(),
        skip_existing_files: false,
    }
}

#[test]
fn sanitize_segment_replaces_forbidden_characters_and_trims() {
    assert_eq!(sanitize_segment("  a:b*c?  "), "a_b_c_");
    assert_eq!(sanitize_segment("..name.."), "name");
    assert_eq!(sanitize_segment("x/y\\z"), "x_y_z");
    assert_eq!(sanitize_segment(" . "), "");
}

#[test]
fn sanitize_relative_path_joins_clean_parts_with_slashes() {
    assert_eq!(sanitize_relative_path("docs\\sub dir\\a:b.txt"), "docs/sub dir/a_b.txt");
    assert_eq!(sanitize_relative_path("..\\.."), "file");
    assert_eq!(sanitize_relative_path(""), "file");
}

#[test]
fn footer_written_for_a_manifest_locates_it() {
    let header = header_magic_bytes();
    assert_eq!(header, b"WRH1".to_vec());
    let footer = encode_footer(30, 14);
    assert_eq!(footer.len(), 20);
    assert_eq!(&footer[16..20], b"WRHF");
    let located = locate_manifest(64, &header, &footer).expect("footer should locate the manifest");
    assert_eq!(located.offset, 30);
    assert_eq!(located.len, 14);
}

#[test]
fn locate_manifest_reports_each_format_error() {
    let header = header_magic_bytes();
    let footer = encode_footer(30, 14);
    assert_eq!(locate_manifest(23, &header, &footer), Err(ArchiveFormatError::TooSmall));
    assert_eq!(locate_manifest(64, b"ZIP!", &footer), Err(ArchiveFormatError::InvalidHeader));
    let mut bad_footer = footer.clone();
    bad_footer[19] = b'X';
    assert_eq!(locate_manifest(64, &header, &bad_footer), Err(ArchiveFormatError::InvalidFooter));
    assert_eq!(locate_manifest(63, &header, &footer), Err(ArchiveFormatError::ManifestOutOfBounds));
    let huge = encode_footer(u64::MAX, 2);
    assert_eq!(locate_manifest(64, &header, &huge), Err(ArchiveFormatError::ManifestOutOfBounds));
    assert!(ArchiveFormatError::TooSmall.message().contains("too small"));
    assert!(ArchiveFormatError::InvalidHeader.message().contains("header"));
}

#[test]
fn unsupported_format_version_is_rejected_with_its_number() {
    assert_eq!(check_format_version(1), Ok(()));
    let err = check_format_version(2).unwrap_err();
    assert_eq!(err, ArchiveFormatError::UnsupportedVersion { found: 2, expected: 1 });
    assert_eq!(err.message(), "Unsupported WinRehome archive format version 2 (expected 1).");
}

#[test]
fn encoded_entry_records_the_crc32_and_reads_back() {
    let pending = PendingFile {
        source_path: "C:\\data\\digits.txt".to_string(),
        archive_path: "user/Files/Docs/digits.txt".to_string(),
        entry_kind: "user_data".to_string(),
    };
    let data = b"123456789";
    let (entry, stored) = encode_entry(&pending, data, 4).expect("encoding should succeed");
    assert_eq!(entry.crc32, 0xCBF4_3926);
    assert_eq!(entry.original_size, 9);
    assert_eq!(entry.offset, 4);
    assert_eq!(entry.stored_size, stored.len() as u64);
    assert_eq!(entry.archive_path, "user/Files/Docs/digits.txt");
    assert_eq!(check_entry_payload(&entry, &stored), Ok(data.to_vec()));
}

#[test]
fn compressed_stream_differs_from_repetitive_input() {
    let pending = PendingFile {
        source_path: "a".to_string(),
        archive_path: "user/a/b".to_string(),
        entry_kind: "user_data".to_string(),
    };
    let data = vec![b'a'; 4096];
    let (entry, stored) = encode_entry(&pending, &data, 4).expect("encoding should succeed");
    assert!(stored.len() < data.len());
    assert_ne!(stored, data);
    assert_eq!(check_entry_payload(&entry, &stored), Ok(data));
}

#[test]
fn entry_checks_report_each_error() {
    let pending = PendingFile {
        source_path: "a".to_string(),
        archive_path: "user/a/b".to_string(),
        entry_kind: "user_data".to_string(),
    };
    let (entry, stored) = encode_entry(&pending, b"hello", 4).expect("encoding should succeed");
    let mut wrong_size = entry.clone();
    wrong_size.original_size = 6;
    assert_eq!(check_entry_payload(&wrong_size, &stored), Err(EntryCheckError::SizeMismatch { expected: 6, actual: 5 }));
    let mut wrong_crc = entry.clone();
    wrong_crc.crc32 = entry.crc32 ^ 1;
    assert_eq!(
        check_entry_payload(&wrong_crc, &stored),
        Err(EntryCheckError::ChecksumMismatch { expected: entry.crc32 ^ 1, actual: entry.crc32 })
    );
    assert_eq!(check_entry_payload(&entry, &[0xff, 0xff, 0xff]), Err(EntryCheckError::Undecodable));
    let message = EntryCheckError::SizeMismatch { expected: 6, actual: 5 }.message("verify", "user/a/b");
    assert_eq!(message, "verify size mismatch for user/a/b: expected 6, got 5");
}

#[test]
fn restore_paths_that_escape_or_are_empty_are_rejected() {
    match validate_restore_relative_path("user/Personal Files/Documents/../../escaped/note.txt") {
        Err(e @ RestorePathError::Escapes(_)) => assert!(e.message().contains("escapes restore root")),
        other => panic!("unexpected {other:?}"),
    }
    assert!(matches!(validate_restore_relative_path("C:/Windows/evil.dll"), Err(RestorePathError::Escapes(_))));
    assert!(matches!(validate_restore_relative_path("/abs/path"), Err(RestorePathError::Escapes(_))));
    assert!(matches!(validate_restore_relative_path("./."), Err(RestorePathError::Empty(_))));
    assert_eq!(validate_restore_relative_path("user/a/./b.txt").unwrap(), "user\\a\\b.txt");
}

#[test]
fn restore_selection_filters_by_kind_and_root() {
    let m = manifest(vec![
        entry("user/Personal Files/Documents/note.txt", "user_data"),
        entry("portable/PortableTool/Tool.exe", "portable_app"),
        entry("portable/PortableToolbox/Other.exe", "portable_app"),
        entry("installed/Git__hklm-64__Git_is1/git.exe", "installed_app"),
        entry("other/x", "mystery"),
    ]);
    let all = selection(&["user/Personal Files/Documents", "portable/PortableTool", "installed/Git__hklm-64__Git_is1", "other"]);
    assert_eq!(collect_selected_restore_entries(&m, &all), vec![0, 1, 3]);
    let mut user_only = all.clone();
    user_only.restore_portable_apps = false;
    user_only.restore_installed_app_dirs = false;
    assert_eq!(collect_selected_restore_entries(&m, &user_only), vec![0]);
    assert_eq!(collect_selected_restore_entries(&m, &selection(&[])), Vec::<usize>::new());
}

#[test]
fn restore_plan_rejects_duplicates_escapes_and_nothing() {
    let dup = manifest(vec![
        entry("user/Personal Files/Documents/Note.txt", "user_data"),
        entry("user/Personal Files/Documents/note.txt", "user_data"),
    ]);
    let sel = selection(&["user/Personal Files/Documents"]);
    match plan_restore_targets("D:\\Restore", &dup, &sel) {
        Err(e @ RestorePlanError::Duplicate(_)) => assert!(e.message().contains("duplicated in archive")),
        other => panic!("unexpected {other:?}"),
    }
    let escape = manifest(vec![entry("user/Personal Files/Documents/../../escaped/note.txt", "user_data")]);
    assert!(matches!(plan_restore_targets("D:\\Restore", &escape, &sel), Err(RestorePlanError::Escapes(_))));
    let nothing = plan_restore_targets("D:\\Restore", &dup, &selection(&[]));
    match nothing {
        Err(e @ RestorePlanError::NothingToRestore) => assert!(e.message().contains("does not contain any files")),
        other => panic!("unexpected {other:?}"),
    }
}

#[test]
fn restore_plan_places_each_entry_under_the_destination() {
    let m = manifest(vec![
        entry("user/Personal Files/Documents/note.txt", "user_data"),
        entry("portable/PortableTool/Tool.exe", "portable_app"),
    ]);
    let targets = plan_restore_targets("D:\\Restore", &m, &selection(&["user/Personal Files/Documents", "portable/PortableTool"]))
        .expect("plan should succeed");
    assert_eq!(targets.len(), 2);
    assert_eq!(targets[0].entry_index, 0);
    assert_eq!(targets[0].output_path, "D:\\Restore\\user\\Personal Files\\Documents\\note.txt");
    assert_eq!(targets[1].output_path, "D:\\Restore\\portable\\PortableTool\\Tool.exe");
    for target in &targets {
        assert!(target.output_path.starts_with("D:\\Restore\\"));
    }
}

#[test]
fn planner_builds_targets_one_entry_at_a_time() {
    let mut planner = RestoreTargetPlanner::new();
    assert_eq!(planner.push_entry("D:\\R", 0, "a/b.txt").unwrap(), "D:\\R\\a\\b.txt");
    assert!(matches!(planner.push_entry("D:\\R", 1, "A/B.TXT"), Err(RestorePlanError::Duplicate(_))));
    assert_eq!(planner.push_entry("D:\\R\\", 2, "c").unwrap(), "D:\\R\\c");
    let targets = planner.into_targets();
    assert_eq!(targets.len(), 2);
    assert_eq!(targets[1].entry_index, 2);
}
