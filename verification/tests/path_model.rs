use winrehome::archive::{RestorePathError, validate_restore_relative_path};
use winrehome::archive::{RestoreBlockedError, check_restore_destination, check_restore_target};
use winrehome::userdata::{DiscoveredUserDataCandidate, UserDataCandidateSpec, reconcile_discovered_user_data_candidates};
use winrehome::winpath::component_count_exec;
use winrehome::archive::{EntryCheckError, PendingFile, encode_entry};
use winrehome::backup::{BackupArchiveWriter, BackupCollectError, PendingCollector};
use winrehome::plan::{is_system_install_path, paths_overlap};
use winrehome::restore::{RestoreAction, RestoreRun, RestoreRunError, VerifyRun, VerifyRunError};

#[test]
fn rooted_and_unrooted_paths_are_different_paths() {
    assert!(!paths_overlap("\\Users\\Sunny", "Users\\Sunny"));
    assert!(!paths_overlap("\\\\server\\share\\docs", "server\\share\\docs"));
    assert!(paths_overlap("\\\\server\\share\\docs", "\\\\server\\share"));
    assert!(paths_overlap("D:\\Data\\Sub", "D:\\Data"));
    assert!(!is_system_install_path("\\C:\\Windows\\notepad.exe"));
}

#[test]
fn an_undecodable_stream_reports_the_decoder_text() {
    assert_eq!(EntryCheckError::Undecodable.message("restore", "user/a.txt"), "corrupt deflate stream");
}

#[test]
fn a_backup_of_nothing_is_refused() {
    let collector = PendingCollector::new();
    match collector.into_backup_files() {
        Err(error @ BackupCollectError::NothingSelected) => {
            assert_eq!(error.message(), "No files are selected for backup.");
        }
        other => panic!("unexpected {other:?}"),
    }
    let mut collector = PendingCollector::new();
    collector.add_single_file("C:\\a.txt", "user/Files/A", "user_data").unwrap();
    assert_eq!(collector.into_backup_files().unwrap().len(), 1);
}

#[test]
fn encoding_and_adding_a_file_succeed() {
    let pending = PendingFile {
        source_path: "C:\\a.txt".to_string(),
        archive_path: "user/Files/A/a.txt".to_string(),
        entry_kind: "user_data".to_string(),
    };
    let (entry, stored) = encode_entry(&pending, b"hello hello hello", 4).expect("encoding succeeds");
    assert_eq!(entry.offset, 4);
    assert_eq!(entry.stored_size, stored.len() as u64);
    let (mut writer, header) = BackupArchiveWriter::start();
    assert_eq!(header, b"WRH1".to_vec());
    let stored = writer.add_file(&pending, b"hello hello hello").expect("adding succeeds");
    assert_eq!(writer.next_offset(), 4 + stored.len() as u64);
    assert_eq!(writer.original_bytes(), 17);
}

#[test]
fn joining_onto_a_bare_drive_stays_drive_relative() {
    assert_eq!(winrehome::backup::default_output_dir(Some("C:"), "D:\\work"), "C:Desktop\\WinRehome Backups");
    assert_eq!(winrehome::backup::default_output_dir(Some("C:\\Users\\Sunny"), "D:\\work"), "C:\\Users\\Sunny\\Desktop\\WinRehome Backups");
    assert_eq!(winrehome::config::config_path_from(Some("E:"), None).as_deref(), Some("E:WinRehome\\config.json"));
}

#[test]
fn verifying_an_archive_checks_every_entry_and_sums_sizes() {
    let (mut writer, _header) = BackupArchiveWriter::start();
    let a = PendingFile { source_path: "C:\\a".to_string(), archive_path: "user/F/A/a".to_string(), entry_kind: "user_data".to_string() };
    let b = PendingFile { source_path: "C:\\b".to_string(), archive_path: "user/F/A/b".to_string(), entry_kind: "user_data".to_string() };
    let sa = writer.add_file(&a, b"alpha alpha").unwrap();
    let sb = writer.add_file(&b, b"beta").unwrap();
    let files = writer.into_files();
    let mut run = VerifyRun::new();
    run.check(&files[0], &sa).unwrap();
    run.check(&files[1], &sb).unwrap();
    let tally = run.finish().unwrap();
    assert_eq!((tally.verified_files, tally.verified_bytes), (2, 15));
    let mut run = VerifyRun::new();
    run.check(&files[0], &sa).unwrap();
    match run.check(&files[1], &[0xff, 0xff, 0xff]) {
        Err(error @ VerifyRunError::Check { .. }) => assert_eq!(error.message(), "corrupt deflate stream"),
        other => panic!("unexpected {other:?}"),
    }
    match VerifyRun::new().finish() {
        Err(error @ VerifyRunError::NothingToVerify) => {
            assert_eq!(error.message(), "Archive does not contain any files to verify.")
        }
        other => panic!("unexpected {other:?}"),
    }
}

#[test]
fn a_restore_run_counts_written_and_skipped_targets() {
    let (mut writer, _header) = BackupArchiveWriter::start();
    let a = PendingFile { source_path: "C:\\a".to_string(), archive_path: "user/F/A/a".to_string(), entry_kind: "user_data".to_string() };
    let b = PendingFile { source_path: "C:\\b".to_string(), archive_path: "user/F/A/b".to_string(), entry_kind: "user_data".to_string() };
    let sa = writer.add_file(&a, b"alpha alpha").unwrap();
    let _sb = writer.add_file(&b, b"beta").unwrap();
    let files = writer.into_files();

    let mut run = RestoreRun::new(true);
    assert_eq!(run.decide(&files[0], "D:\\R\\user\\F\\A\\a", false).unwrap(), RestoreAction::Write);
    assert_eq!(run.write(&files[0], &sa).unwrap(), b"alpha alpha".to_vec());
    assert_eq!(run.decide(&files[1], "D:\\R\\user\\F\\A\\b", true).unwrap(), RestoreAction::Skip);
    let tally = run.finish();
    assert_eq!((tally.restored_files, tally.skipped_existing_files, tally.restored_bytes), (1, 1, 11));

    let mut strict = RestoreRun::new(false);
    match strict.decide(&files[1], "D:\\R\\user\\F\\A\\b", true) {
        Err(error @ RestoreRunError::AlreadyExists(_)) => {
            assert_eq!(error.message(), "restore target already exists: D:\\R\\user\\F\\A\\b")
        }
        other => panic!("unexpected {other:?}"),
    }
    assert!(matches!(strict.write(&files[0], &[0xff, 0xff]), Err(RestoreRunError::Check { .. })));
    assert_eq!(strict.finish().restored_files, 0);
}

fn chars(s: &str) -> Vec<char> {
    s.chars().collect()
}

#[test]
fn prefix_and_root_count_as_components() {
    assert_eq!(component_count_exec(&chars("C:\\x")), 3);
    assert_eq!(component_count_exec(&chars("C:x")), 2);
    assert_eq!(component_count_exec(&chars("C:")), 1);
    assert_eq!(component_count_exec(&chars("\\\\s\\h\\a")), 3);
    assert_eq!(component_count_exec(&chars("\\\\s\\h")), 2);
    assert_eq!(component_count_exec(&chars("\\x\\y")), 3);
    assert_eq!(component_count_exec(&chars(".\\a\\.\\b")), 3);
    assert_eq!(component_count_exec(&chars("a\\b")), 2);
}

#[test]
fn drive_letters_compare_without_case_and_roots_matter() {
    assert!(paths_overlap("c:\\Data", "C:\\Data\\Sub"));
    assert!(!paths_overlap("C:x\\y", "C:\\x"));
    assert!(!paths_overlap("c:\\Data", "C:\\data"));
    assert!(paths_overlap("//server/share/docs", "\\\\server\\share"));
}

#[test]
fn collapsing_orders_by_component_count_with_prefix_and_root() {
    let collapsed = winrehome::review::collapse_nested_paths(vec!["C:\\x".to_string(), "\\\\s\\h\\a".to_string()]);
    assert_eq!(collapsed, vec!["\\\\s\\h\\a".to_string(), "C:\\x".to_string()]);
}

#[test]
fn reconciling_returns_each_discovered_candidate_at_most_once() {
    let spec = |label: &str, path: &str| UserDataCandidateSpec {
        category: "c".to_string(),
        label: label.to_string(),
        path: path.to_string(),
        reason: "r".to_string(),
    };
    let kept = reconcile_discovered_user_data_candidates(vec![
        DiscoveredUserDataCandidate { spec: spec("same", "D:\\a"), score: 10 },
        DiscoveredUserDataCandidate { spec: spec("same", "D:\\a"), score: 10 },
        DiscoveredUserDataCandidate { spec: spec("other", "E:\\b"), score: 5 },
    ]);
    let labels: Vec<&str> = kept.iter().map(|c| c.label.as_str()).collect();
    assert_eq!(labels, vec!["other", "same"]);
}

#[test]
fn file_names_and_parents_follow_prefixes() {
    let name = |p: &str| winrehome::winpath::file_name_exec(&chars(p)).map(|v| v.into_iter().collect::<String>());
    assert_eq!(name("\\\\s\\h"), None);
    assert_eq!(name("\\\\s\\h\\x.txt"), Some("x.txt".to_string()));
    assert_eq!(name("C:x"), Some("x".to_string()));
    assert_eq!(name("1:"), Some("1:".to_string()));
    assert_eq!(name("C:\\"), None);
    let parent = |p: &str| winrehome::winpath::parent_exec(&chars(p)).map(|v| v.into_iter().collect::<String>());
    assert_eq!(parent("\\\\s\\h\\"), None);
    assert_eq!(parent("\\\\s\\h\\x"), Some("\\\\s\\h\\".to_string()));
    assert_eq!(parent("\\\\s\\h"), None);
    assert_eq!(parent("D:\\Backups\\."), Some("D:\\".to_string()));
    assert_eq!(parent("a\\.\\b"), Some("a".to_string()));
    assert_eq!(parent("a\\b\\\\"), Some("a".to_string()));
    assert_eq!(parent("."), Some(String::new()));
    assert_eq!(parent(".\\a"), Some(".".to_string()));
    assert_eq!(parent("C:a"), Some("C:".to_string()));
    assert_eq!(parent("\\a"), Some("\\".to_string()));
    assert_eq!(parent("a"), Some(String::new()));
    assert_eq!(parent(""), None);
    assert_eq!(parent("C:\\x"), Some("C:\\".to_string()));
    assert_eq!(parent("C:"), None);
}

#[test]
fn a_component_with_a_drive_replaces_the_restore_path() {
    assert_eq!(winrehome::archive::validate_restore_relative_path("a/C:/x").unwrap(), "C:x");
    assert_eq!(winrehome::archive::validate_restore_relative_path("./C:foo/x").unwrap(), "C:foo\\x");
    assert_eq!(winrehome::archive::validate_restore_relative_path("user/Docs/a.txt").unwrap(), "user\\Docs\\a.txt");
    let mut planner = winrehome::archive::RestoreTargetPlanner::new();
    assert_eq!(planner.push_entry("D:\\R", 0, "a/C:x").unwrap(), "C:x");
    assert_eq!(planner.push_entry("D:\\R", 1, "user/a").unwrap(), "D:\\R\\user\\a");
}

#[test]
fn restore_blockers_name_the_existing_file() {
    assert!(check_restore_destination(None).is_ok());
    assert!(check_restore_target(None).is_ok());
    let error = check_restore_destination(Some("D:\\R".to_string())).unwrap_err();
    assert!(matches!(error, RestoreBlockedError::Destination(_)));
    assert_eq!(error.message(), "restore destination is blocked by existing file: D:\\R");
    let error = check_restore_target(Some("D:\\R\\user".to_string())).unwrap_err();
    assert_eq!(error.message(), "restore target is blocked by existing file: D:\\R\\user");
}

#[test]
fn restore_paths_with_a_prefix_root_or_parent_step_are_refused() {
    for p in ["C:x", "C:\\x", "\\x", "\\\\s\\h\\a", "a/../b", ".."] {
        assert!(matches!(validate_restore_relative_path(p), Err(RestorePathError::Escapes(_))), "{p}");
    }
    assert!(matches!(validate_restore_relative_path("./."), Err(RestorePathError::Empty(_))));
    assert_eq!(validate_restore_relative_path("./a//b/").unwrap(), "a\\b");
}
