use std::collections::HashSet;
use winrehome::archive::{ArchiveManifest, ArchivedFileEntry, ManifestPortableApp, ManifestRoot};
use winrehome::models::{PathStats, UserDataRoot};
use winrehome::plan::path_key;
use winrehome::review::{
    LoadedArchive, RestoreSection, build_restore_preview_summary, collapse_nested_paths, collect_restore_roots,
    effective_restore_roots, escape_csv_field, matches_restore_portable_app, matches_restore_user_root,
    matches_scan_user_root, portable_candidate_kind, portable_restore_root_key, restore_destination_for_loaded_archive,
    restore_flags_for_loaded_archive, restore_roots_for_loaded_archive, restore_section_for_loaded_archive,
    restore_text_filter_for_loaded_archive, summarize_restore_portable_apps, summarize_restore_user_roots,
    summarize_scan_user_roots, user_restore_root_key,
};

fn sample_loaded_archive() -> LoadedArchive {
    LoadedArchive {
        path: "C:\\Backups\\sample.wrh".to_string(),
        manifest: ArchiveManifest {
            format_version: 1,
            created_at_unix: 1,
            app_name: "WinRehome".to_string(),
            app_version: "0.1.0".to_string(),
            installed_apps: vec![],
            selected_user_roots: vec![ManifestRoot {
                category: "Personal Files".to_string(),
                label: "Documents".to_string(),
                path: "C:\\Users\\Sunny\\Documents".to_string(),
                reason: "Test".to_string(),
            }],
            selected_portable_apps: vec![ManifestPortableApp {
                display_name: "PortableTool".to_string(),
                root_path: "D:\\PortableTool".to_string(),
                main_executable: "D:\\PortableTool\\Tool.exe".to_string(),
                confidence: "high".to_string(),
                reasons: vec!["portable".to_string()],
            }],
            files: vec![
                ArchivedFileEntry {
                    source_path: "a".to_string(),
                    archive_path: "user/Personal Files/Documents/note.txt".to_string(),
                    entry_kind: "user_data".to_string(),
                    offset: 0,
                    stored_size: 1,
                    original_size: 10,
                    crc32: 1,
                },
                ArchivedFileEntry {
                    source_path: "b".to_string(),
                    archive_path: "portable/PortableTool/Tool.exe".to_string(),
                    entry_kind: "portable_app".to_string(),
                    offset: 1,
                    stored_size: 1,
                    original_size: 20,
                    crc32: 2,
                },
            ],
            original_bytes: 30,
            stored_bytes: 25,
        },
    }
}

fn as_set(v: &[String]) -> HashSet<String> {
    v.iter().cloned().collect()
}

#[test]
fn restore_preview_summary_counts_only_selected_roots() {
    let loaded = sample_loaded_archive();
    let roots = vec![user_restore_root_key(&loaded.manifest.selected_user_roots[0])];

    let summary = build_restore_preview_summary(&loaded, &roots);

    assert_eq!(summary.selected_root_count, 1);
    assert_eq!(summary.selected_user_root_count, 1);
    assert_eq!(summary.selected_portable_app_count, 0);
    assert_eq!(summary.selected_file_count, 1);
    assert_eq!(summary.selected_bytes, 10);
}

#[test]
fn effective_restore_roots_respects_category_toggles() {
    let loaded = sample_loaded_archive();
    let selected_roots = vec![
        user_restore_root_key(&loaded.manifest.selected_user_roots[0]),
        portable_restore_root_key(&loaded.manifest.selected_portable_apps[0]),
    ];

    let effective = effective_restore_roots(&loaded, false, true, true, &selected_roots);

    assert_eq!(effective.len(), 1);
    assert!(effective.contains(&"portable/PortableTool".to_string()));
    assert!(!effective.contains(&"user/Personal Files/Documents".to_string()));
}

#[test]
fn restore_scope_filter_can_hide_selected_roots() {
    let loaded = sample_loaded_archive();
    let user_root = &loaded.manifest.selected_user_roots[0];
    let portable_app = &loaded.manifest.selected_portable_apps[0];
    let selected = vec![user_restore_root_key(user_root), portable_restore_root_key(portable_app)];

    assert!(!matches_restore_user_root(user_root, "", true, &selected));
    assert!(!matches_restore_portable_app(portable_app, "", true, &selected));
    assert!(matches_restore_user_root(user_root, "", false, &selected));
    assert!(matches_restore_portable_app(portable_app, "", false, &selected));
}

#[test]
fn restore_scope_summaries_count_visible_selected_and_unselected() {
    let loaded = sample_loaded_archive();
    let user_root = &loaded.manifest.selected_user_roots[0];
    let selected = vec![user_restore_root_key(user_root)];

    let user_summary = summarize_restore_user_roots(&loaded.manifest.selected_user_roots, "", false, &selected);
    let portable_summary = summarize_restore_portable_apps(&loaded.manifest.selected_portable_apps, "", false, &selected);

    assert_eq!(user_summary.filtered_count, 1);
    assert_eq!(user_summary.visible_selected_count, 1);
    assert_eq!(user_summary.visible_unselected_count, 0);
    assert_eq!(portable_summary.filtered_count, 1);
    assert_eq!(portable_summary.visible_selected_count, 0);
    assert_eq!(portable_summary.visible_unselected_count, 1);
}

#[test]
fn portable_candidate_kind_distinguishes_single_exe() {
    assert_eq!(portable_candidate_kind("D:\\Tools\\Tool.exe", "D:\\Tools\\Tool.exe"), "单文件可执行程序");
    assert_eq!(portable_candidate_kind("D:\\Tools\\Tool", "D:\\Tools\\Tool\\Tool.exe"), "目录型便携软件");
}

#[test]
fn scan_user_root_filter_matches_text_fields() {
    let recommended = UserDataRoot {
        category: "Personal Files".into(),
        label: "Documents".into(),
        path: "C:\\Users\\Sunny\\Documents".into(),
        reason: "Recommended".into(),
        stats: PathStats::default(),
    };

    assert!(matches_scan_user_root(&recommended, ""));
    assert!(matches_scan_user_root(&recommended, "documents"));
    assert!(matches_scan_user_root(&recommended, "personal files"));
    assert!(matches_scan_user_root(&recommended, "c:\\users\\sunny\\documents"));
    assert!(!matches_scan_user_root(&recommended, "portable"));
}

#[test]
fn scan_user_root_summary_counts_visible_selection_and_source() {
    let recommended_path = "C:\\Users\\Sunny\\Documents";
    let custom_path = "D:\\Configs\\portable.ini";
    let roots = vec![
        UserDataRoot {
            category: "Personal Files".into(),
            label: "Documents".into(),
            path: recommended_path.into(),
            reason: "Recommended".into(),
            stats: PathStats::default(),
        },
        UserDataRoot {
            category: "Custom Files".into(),
            label: "Portable Config".into(),
            path: custom_path.into(),
            reason: "User-added".into(),
            stats: PathStats::default(),
        },
    ];
    let selected = vec![path_key(recommended_path)];

    let summary = summarize_scan_user_roots(&roots, "", &selected);

    assert_eq!(summary.filtered_count, 2);
    assert_eq!(summary.visible_selected_count, 1);
    assert_eq!(summary.visible_unselected_count, 1);
    assert_eq!(summary.visible_keys.len(), 2);
    assert!(summary.visible_keys.contains(&path_key(recommended_path)));
    assert!(summary.visible_keys.contains(&path_key(custom_path)));
}

#[test]
fn collapse_nested_paths_prefers_parent_directory() {
    let collapsed = collapse_nested_paths(vec![
        "D:\\Tools\\PortableTool".to_string(),
        "D:\\Tools".to_string(),
        "D:\\Games".to_string(),
        "D:\\Tools\\PortableTool\\Config".to_string(),
    ]);

    assert_eq!(collapsed.len(), 2);
    assert!(collapsed.contains(&"D:\\Tools".to_string()));
    assert!(collapsed.contains(&"D:\\Games".to_string()));
}

#[test]
fn csv_field_escaping_wraps_quotes_and_commas() {
    assert_eq!(escape_csv_field("plain"), "plain");
    assert_eq!(escape_csv_field("with,comma"), "\"with,comma\"");
    assert_eq!(escape_csv_field("with\"quote"), "\"with\"\"quote\"");
}

#[test]
fn reloading_same_archive_keeps_filtered_restore_roots() {
    let loaded = sample_loaded_archive();
    let selected = vec![portable_restore_root_key(&loaded.manifest.selected_portable_apps[0])];

    let retained = restore_roots_for_loaded_archive(&loaded, Some(loaded.path.as_str()), &selected);

    assert_eq!(as_set(&retained), as_set(&selected));
}

#[test]
fn reloading_same_archive_keeps_empty_restore_selection() {
    let loaded = sample_loaded_archive();

    let retained = restore_roots_for_loaded_archive(&loaded, Some(loaded.path.as_str()), &[]);

    assert!(retained.is_empty());
}

#[test]
fn loading_different_archive_resets_restore_selection_to_all_roots() {
    let loaded = sample_loaded_archive();
    let selected = vec![portable_restore_root_key(&loaded.manifest.selected_portable_apps[0])];

    let restored = restore_roots_for_loaded_archive(&loaded, Some("D:\\Other\\different.wrh"), &selected);

    assert_eq!(as_set(&restored), as_set(&collect_restore_roots(&loaded)));
}

#[test]
fn same_archive_reload_keeps_restore_destination_and_flags() {
    let archive_path = "C:\\Backups\\sample.wrh";

    let destination = restore_destination_for_loaded_archive(
        archive_path,
        true,
        "D:\\My Restore Target",
        Some("C:\\Users\\Sunny"),
        Some("C:\\Work"),
    );
    let flags = restore_flags_for_loaded_archive(true, false, true, true, true);
    let section = restore_section_for_loaded_archive(true, RestoreSection::InstalledApps);
    let filter = restore_text_filter_for_loaded_archive(true, "portable");

    assert_eq!(destination, "D:\\My Restore Target");
    assert_eq!(flags, (false, true, true, true));
    assert_eq!(section, RestoreSection::InstalledApps);
    assert_eq!(filter, "portable");
}

#[test]
fn different_archive_reload_resets_restore_runtime_state() {
    let archive_path = "C:\\Backups\\sample.wrh";

    let destination =
        restore_destination_for_loaded_archive(archive_path, false, "D:\\Old Restore", Some("C:\\Users\\Sunny"), Some("C:\\Work"));
    let flags = restore_flags_for_loaded_archive(false, false, false, true, true);
    let section = restore_section_for_loaded_archive(false, RestoreSection::InstalledApps);
    let filter = restore_text_filter_for_loaded_archive(false, "portable");

    assert!(destination.ends_with("WinRehome Restores\\sample"));
    assert_eq!(flags, (true, true, true, false));
    assert_eq!(section, RestoreSection::RestoreScope);
    assert!(filter.is_empty());
}
