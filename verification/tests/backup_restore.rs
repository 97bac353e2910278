use winrehome::archive::{ArchiveManifest, ArchivedFileEntry, ManifestInstalledApp, ManifestPortableApp, ManifestRoot, PendingFile, check_entry_payload, locate_manifest, encode_footer};
use winrehome::backup::{
    BackupArchiveWriter, BackupCollectError, BackupOutputError, PendingCollector, backup_sources, build_manifest,
    check_backup_output, collect_selected_backup_source_dirs, default_output_dir, default_restore_dir,
    installed_app_backup_root,
};
use winrehome::models::{InstalledAppRecord, PathStats, PortableAppCandidate, PortableConfidence, UserDataRoot};
use winrehome::plan::{BackupPreview, path_key};
use winrehome::restore::{
    ArchiveFileInfo, RestoreAction, RestoreRunError, RestoreTally, VerifyTally, collect_manifest_restore_roots,
    rank_recent_archives, summarize_restore_preflight,
};
use winrehome::archive::{RestoreTarget, validate_restore_relative_path};
use winrehome::backup::{portable_archive_root, user_archive_root};
use winrehome::walk::{WalkAction, WalkEntry};

fn sample_preview() -> BackupPreview {
    BackupPreview {
        installed_apps: vec![InstalledAppRecord {
            display_name: "Git".to_string(),
            source: "hklm-64".to_string(),
            install_location: Some("C:\\Program Files\\Git".to_string()),
            install_stats: Some(PathStats::default()),
            uninstall_key: "Git_is1".to_string(),
        }],
        portable_candidates: vec![PortableAppCandidate {
            display_name: "PortableTool".to_string(),
            root_path: "D:\\PortableTool".to_string(),
            main_executable: "D:\\PortableTool\\Tool.exe".to_string(),
            confidence: PortableConfidence::High,
            stats: PathStats::default(),
            reasons: vec!["2 executable(s) found".to_string()],
        }],
        user_data_roots: vec![UserDataRoot {
            category: "Personal Files".into(),
            label: "Documents".into(),
            path: "C:\\Users\\Sunny\\Documents".into(),
            reason: "Test documents".into(),
            stats: PathStats::default(),
        }],
    }
}

fn walk_file(path: &str, depth: usize) -> WalkEntry {
    WalkEntry { path: path.to_string(), depth, is_dir: false, is_file: true, len: Some(5) }
}

#[test]
fn installed_app_backup_root_joins_sanitized_parts() {
    let app = InstalledAppRecord {
        display_name: "Git: CLI".to_string(),
        source: "hklm-64".to_string(),
        install_location: None,
        install_stats: None,
        uninstall_key: "Git_is1".to_string(),
    };
    assert_eq!(installed_app_backup_root(&app), "installed/Git_ CLI__hklm-64__Git_is1");
}

#[test]
fn backup_sources_follow_the_selection_in_order() {
    let preview = sample_preview();
    let sources = backup_sources(
        &preview,
        &[path_key("C:\\Users\\Sunny\\Documents")],
        &[path_key("D:\\PortableTool")],
        &[preview.installed_apps[0].selection_key()],
    );
    let roots: Vec<(&str, &str, &str)> =
        sources.iter().map(|s| (s.source_root.as_str(), s.archive_root.as_str(), s.entry_kind.as_str())).collect();
    assert_eq!(
        roots,
        vec![
            ("C:\\Users\\Sunny\\Documents", "user/Personal Files/Documents", "user_data"),
            ("D:\\PortableTool", "portable/PortableTool", "portable_app"),
            ("C:\\Program Files\\Git", "installed/Git__hklm-64__Git_is1", "installed_app"),
        ]
    );
    assert!(backup_sources(&preview, &[], &[], &[]).is_empty());
}

#[test]
fn manifest_records_every_installed_app_and_selected_roots() {
    let preview = sample_preview();
    let manifest = build_manifest(
        &preview,
        &[path_key("C:\\Users\\Sunny\\Documents")],
        &[],
        &[preview.installed_apps[0].selection_key()],
        vec![],
        7,
        3,
        99,
        "0.1.0",
    );
    assert_eq!(manifest.format_version, 1);
    assert_eq!(manifest.app_name, "WinRehome");
    assert_eq!(manifest.installed_apps.len(), 1);
    assert_eq!(manifest.installed_apps[0].backup_root.as_deref(), Some("installed/Git__hklm-64__Git_is1"));
    assert!(manifest.installed_apps[0].files_included);
    assert_eq!(manifest.selected_user_roots.len(), 1);
    assert_eq!(manifest.selected_user_roots[0].label, "Documents");
    assert!(manifest.selected_portable_apps.is_empty());
    assert_eq!((manifest.original_bytes, manifest.stored_bytes, manifest.created_at_unix), (7, 3, 99));
}

#[test]
fn collector_refuses_two_files_with_the_same_archive_path() {
    let mut collector = PendingCollector::new();
    let root = "D:\\Docs";
    assert!(matches!(collector.add_walk_entry(root, "user/Files/Docs", "user_data", &walk_file("D:\\Docs\\a.txt", 1)), Ok(WalkAction::Continue)));
    assert!(matches!(collector.add_walk_entry(root, "user/Files/Docs", "user_data", &walk_file("D:\\Docs\\a.txt", 1)), Ok(WalkAction::Continue)));
    let noise = WalkEntry { path: "D:\\Docs\\node_modules".to_string(), depth: 1, is_dir: true, is_file: false, len: None };
    assert!(matches!(collector.add_walk_entry(root, "user/Files/Docs", "user_data", &noise), Ok(WalkAction::SkipDir)));
    match collector.add_walk_entry(root, "user/Files/Docs", "user_data", &walk_file("D:\\Docs\\A.TXT ", 1)) {
        Err(e @ BackupCollectError::DuplicateArchivePath(_)) => {
            assert_eq!(e.message(), "duplicate archive entry path: user/Files/Docs/A.TXT");
        }
        other => panic!("unexpected {other:?}"),
    }
    let pending = collector.into_pending();
    assert_eq!(pending.len(), 1);
    assert_eq!(pending[0].archive_path, "user/Files/Docs/a.txt");
}

#[test]
fn collector_names_a_single_file_source_after_its_trimmed_file_name() {
    let mut collector = PendingCollector::new();
    collector.add_single_file("C:\\Users\\Sunny\\.gitconfig", "user/Developer Settings/GitConfig", "user_data").unwrap();
    let pending = collector.into_pending();
    assert_eq!(pending[0].archive_path, "user/Developer Settings/GitConfig/gitconfig");
}

#[test]
fn written_archive_reads_back_every_file() {
    let (mut writer, header) = BackupArchiveWriter::start();
    let mut bytes = header.clone();
    let files: Vec<(&str, Vec<u8>)> = vec![("user/a/one.txt", b"hello world".to_vec()), ("user/a/two.txt", vec![7u8; 1000])];
    for (path, data) in &files {
        let pending = PendingFile { source_path: "x".to_string(), archive_path: path.to_string(), entry_kind: "user_data".to_string() };
        assert_eq!(writer.next_offset(), bytes.len() as u64);
        let stored = writer.add_file(&pending, data).expect("add file");
        bytes.extend_from_slice(&stored);
    }
    assert_eq!(writer.original_bytes(), 1011);
    let manifest_offset = writer.next_offset();
    let entries = writer.into_files();
    let manifest_bytes = b"{\"manifest\":true}".to_vec();
    bytes.extend_from_slice(&manifest_bytes);
    bytes.extend_from_slice(&encode_footer(manifest_offset, manifest_bytes.len() as u64));
    let footer = bytes[bytes.len() - 20..].to_vec();
    let location = locate_manifest(bytes.len() as u64, &bytes[..4], &footer).expect("locate");
    assert_eq!(&bytes[location.offset as usize..(location.offset + location.len) as usize], &manifest_bytes[..]);
    for (entry, (_, data)) in entries.iter().zip(files.iter()) {
        let stream = &bytes[entry.offset as usize..(entry.offset + entry.stored_size) as usize];
        assert_eq!(check_entry_payload(entry, stream).as_ref(), Ok(data));
    }
    assert_eq!(entries[0].offset, 4);
    assert_eq!(entries[1].offset, 4 + entries[0].stored_size);
}

#[test]
fn backup_output_check_reports_each_problem() {
    let dirs = vec!["C:\\Users\\Sunny\\Documents".to_string()];
    match check_backup_output("D:\\out.txt", Some(false), None, &dirs) {
        Err(e @ BackupOutputError::ExistingFile(_)) => assert!(e.message().contains("existing file")),
        other => panic!("unexpected {other:?}"),
    }
    match check_backup_output("D:\\file\\out", None, Some("D:\\file".to_string()), &dirs) {
        Err(e @ BackupOutputError::Blocked(_)) => assert!(e.message().contains("blocked by existing file")),
        other => panic!("unexpected {other:?}"),
    }
    match check_backup_output("C:\\Users\\Sunny\\Documents\\Backups", Some(true), None, &dirs) {
        Err(e @ BackupOutputError::Overlaps(_)) => assert!(e.message().contains("overlaps selected source directory")),
        other => panic!("unexpected {other:?}"),
    }
    let ok = check_backup_output("D:\\Backups", None, None, &dirs).expect("missing directory is acceptable");
    assert!(!ok.exists);
    assert!(!ok.is_directory);
    assert_eq!(ok.output_dir, "D:\\Backups");
}

#[test]
fn source_dirs_are_the_selected_folders_once_each() {
    let mut preview = sample_preview();
    preview.portable_candidates[0].root_path = "c:\\users\\sunny\\documents".to_string();
    let sel_user = [path_key("C:\\Users\\Sunny\\Documents")];
    let sel_port = [path_key("c:\\users\\sunny\\documents")];
    let dirs = collect_selected_backup_source_dirs(&preview, &sel_user, &sel_port, &[], &[true, true]);
    assert_eq!(dirs, vec!["C:\\Users\\Sunny\\Documents".to_string()]);
    let none = collect_selected_backup_source_dirs(&preview, &sel_user, &sel_port, &[], &[false, false]);
    assert!(none.is_empty());
}

#[test]
fn default_folders_live_under_the_profile_desktop() {
    assert_eq!(default_output_dir(Some("C:\\Users\\Sunny"), "C:\\Work"), "C:\\Users\\Sunny\\Desktop\\WinRehome Backups");
    assert_eq!(default_output_dir(None, "C:\\Work"), "C:\\Work\\WinRehome Backups");
    assert_eq!(
        default_restore_dir("C:\\Backups\\WinRehome-backup-1.wrh", Some("C:\\Users\\Sunny"), "C:\\Work"),
        "C:\\Users\\Sunny\\Desktop\\WinRehome Restores\\WinRehome-backup-1"
    );
}

#[test]
fn restore_preflight_counts_conflicts_and_keeps_three_examples() {
    let targets: Vec<RestoreTarget> = (0..5)
        .map(|i| RestoreTarget { entry_index: i, output_path: format!("D:\\R\\f{i}.txt") })
        .collect();
    let exists = [true, false, true, true, true];
    let summary = summarize_restore_preflight(&targets, &exists, true, true);
    assert_eq!(summary.selected_files, 5);
    assert_eq!(summary.conflicting_files, 4);
    assert_eq!(summary.new_files, 1);
    assert_eq!(summary.conflict_examples, vec!["D:\\R\\f0.txt", "D:\\R\\f2.txt", "D:\\R\\f3.txt"]);
    assert_eq!(summary.new_examples, vec!["D:\\R\\f1.txt"]);
}

#[test]
fn restore_tally_skips_or_refuses_existing_targets() {
    let mut tally = RestoreTally::new();
    assert_eq!(tally.decide("D:\\R\\a", false, false).unwrap(), RestoreAction::Write);
    assert_eq!(tally.decide("D:\\R\\a", true, true).unwrap(), RestoreAction::Skip);
    assert_eq!(tally.skipped_existing_files, 1);
    match tally.decide("D:\\R\\a", true, false) {
        Err(e @ RestoreRunError::AlreadyExists(_)) => assert_eq!(e.message(), "restore target already exists: D:\\R\\a"),
        other => panic!("unexpected {other:?}"),
    }
}

#[test]
fn verify_tally_counts_checked_files() {
    let pending = PendingFile { source_path: "x".to_string(), archive_path: "user/a/b".to_string(), entry_kind: "user_data".to_string() };
    let (entry, stored) = winrehome::archive::encode_entry(&pending, b"hello verify", 4).unwrap();
    let mut tally = VerifyTally::new();
    tally.verify_entry(&entry, &stored).unwrap();
    assert_eq!((tally.verified_files, tally.verified_bytes), (1, 12));
    let mut restore = RestoreTally::new();
    assert_eq!(restore.restore_entry(&entry, &stored).unwrap(), b"hello verify".to_vec());
    assert_eq!((restore.restored_files, restore.restored_bytes), (1, 12));
}

#[test]
fn manifest_restore_roots_cover_all_recorded_roots() {
    let manifest = ArchiveManifest {
        format_version: 1,
        created_at_unix: 1,
        app_name: "WinRehome".to_string(),
        app_version: "0.1.0".to_string(),
        installed_apps: vec![ManifestInstalledApp {
            display_name: "Git".to_string(),
            source: "hklm-64".to_string(),
            install_location: None,
            backup_root: Some("installed/Git__hklm-64__Git_is1".to_string()),
            files_included: true,
            uninstall_key: "Git_is1".to_string(),
        }],
        selected_user_roots: vec![ManifestRoot {
            category: "Personal Files".to_string(),
            label: "Documents".to_string(),
            path: "C:\\x".to_string(),
            reason: "r".to_string(),
        }],
        selected_portable_apps: vec![ManifestPortableApp {
            display_name: "PortableTool".to_string(),
            root_path: "D:\\PortableTool".to_string(),
            main_executable: "D:\\PortableTool\\Tool.exe".to_string(),
            confidence: "high".to_string(),
            reasons: vec![],
        }],
        files: Vec::<ArchivedFileEntry>::new(),
        original_bytes: 0,
        stored_bytes: 0,
    };
    assert_eq!(
        collect_manifest_restore_roots(&manifest),
        vec!["user/Personal Files/Documents", "portable/PortableTool", "installed/Git__hklm-64__Git_is1"]
    );
}

#[test]
fn recent_archives_keep_latest_time_per_path_newest_first() {
    let found = vec![
        ArchiveFileInfo { path: "D:\\a\\first.wrh".to_string(), modified_secs: 10, modified_nanos: 0 },
        ArchiveFileInfo { path: "D:\\a\\notes.txt".to_string(), modified_secs: 50, modified_nanos: 0 },
        ArchiveFileInfo { path: "D:\\b\\second.wrh".to_string(), modified_secs: 20, modified_nanos: 0 },
        ArchiveFileInfo { path: "D:/a/first.wrh".to_string(), modified_secs: 30, modified_nanos: 0 },
    ];
    assert_eq!(rank_recent_archives(&found, 10), vec!["D:\\a\\first.wrh", "D:\\b\\second.wrh"]);
    assert_eq!(rank_recent_archives(&found, 1), vec!["D:\\a\\first.wrh"]);
    assert_eq!(rank_recent_archives(&found, 0).len(), 2);
}

#[test]
fn archive_paths_of_odd_names_still_restore_under_the_destination() {
    let user_root = user_archive_root("..", "..:/x");
    assert_eq!(user_root, "user//__x");
    let mut collector = PendingCollector::new();
    collector.add_single_file("C:\\Users\\Sunny\\..", &user_root, "user_data").unwrap();
    let walked = WalkEntry { path: "D:\\Apps\\..\\..\\evil.txt".to_string(), depth: 1, is_dir: false, is_file: true, len: Some(1) };
    let portable_root = portable_archive_root("..");
    assert_eq!(portable_root, "portable/");
    assert!(matches!(collector.add_walk_entry("D:\\Apps", &portable_root, "portable_app", &walked), Ok(WalkAction::Continue)));
    for pending in collector.into_pending() {
        let relative = validate_restore_relative_path(&pending.archive_path);
        assert!(relative.is_ok(), "{} should restore", pending.archive_path);
    }
}
