use winrehome::config::{ConfigPathError, config_path_from, eframe_persistence_path_for, normalize_existing_paths};
use winrehome::plan::default_scan_roots;
use winrehome::review::{InstalledAppExportRow, default_scan_root_entries, installed_app_inventory_csv, recent_archive_search_dirs};

#[test]
fn settings_file_prefers_the_configuration_folder() {
    assert_eq!(
        config_path_from(Some("C:\\Users\\Sunny\\AppData\\Roaming"), Some("C:\\Users\\Sunny")).as_deref(),
        Some("C:\\Users\\Sunny\\AppData\\Roaming\\WinRehome\\config.json")
    );
    assert_eq!(
        config_path_from(None, Some("C:\\Users\\Sunny")).as_deref(),
        Some("C:\\Users\\Sunny\\.winrehome\\config.json")
    );
    assert_eq!(config_path_from(None, None), None);
}

#[test]
fn window_state_file_sits_beside_the_settings_file() {
    assert_eq!(
        eframe_persistence_path_for("C:\\Users\\Sunny\\AppData\\Roaming\\WinRehome\\config.json").as_deref(),
        Some("C:\\Users\\Sunny\\AppData\\Roaming\\WinRehome\\eframe-state.ron")
    );
    assert_eq!(eframe_persistence_path_for(""), None);
}

#[test]
fn settings_errors_have_their_messages() {
    assert_eq!(ConfigPathError::NoConfigDirectory.message(), "unable to determine a config directory for WinRehome");
    assert_eq!(ConfigPathError::NoParentDirectory.message(), "config path does not have a parent directory");
}

#[test]
fn only_existing_saved_paths_are_kept_in_order() {
    let paths = vec!["D:\\Keep".to_string(), "Z:\\definitely-missing-path".to_string(), "E:\\Also".to_string()];
    assert_eq!(normalize_existing_paths(&paths, &[true, false, true]), vec!["D:\\Keep".to_string(), "E:\\Also".to_string()]);
    assert!(normalize_existing_paths(&paths, &[false, false, false]).is_empty());
}

#[test]
fn inventory_csv_has_a_header_and_one_escaped_line_per_app() {
    assert_eq!(installed_app_inventory_csv(&[]), None);
    let rows = vec![
        InstalledAppExportRow {
            display_name: "Git".to_string(),
            source: "hklm-64".to_string(),
            install_location: Some("C:\\Program Files\\Git".to_string()),
            uninstall_key: "Git_is1".to_string(),
        },
        InstalledAppExportRow {
            display_name: "Tool, \"Pro\"".to_string(),
            source: "hkcu-64".to_string(),
            install_location: None,
            uninstall_key: "tool".to_string(),
        },
    ];
    assert_eq!(
        installed_app_inventory_csv(&rows).as_deref(),
        Some(
            "DisplayName,Source,InstallLocation,RegistryKey\nGit,hklm-64,C:\\Program Files\\Git,Git_is1\n\"Tool, \"\"Pro\"\"\",hkcu-64,,tool\n"
        )
    );
}

#[test]
fn default_scan_roots_are_the_existing_drives_in_order() {
    let mut drives = vec![false; 24];
    drives[0] = true;
    drives[2] = true;
    drives[23] = true;
    assert_eq!(default_scan_roots(&drives), vec!["C:\\".to_string(), "E:\\".to_string(), "Z:\\".to_string()]);
    assert!(default_scan_roots(&[false; 24]).is_empty());
    assert_eq!(default_scan_roots(&[false, true]), vec!["D:\\".to_string()]);
    let entries = default_scan_root_entries(&[true, false, true]);
    let paths: Vec<&str> = entries.iter().map(|entry| entry.path.as_str()).collect();
    assert_eq!(paths, vec!["C:\\", "E:\\"]);
}

#[test]
fn recent_archive_folders_are_listed_once_each() {
    let dirs = recent_archive_search_dirs(
        Some("C:\\Users\\Sunny\\Desktop\\WinRehome Backups"),
        "  D:\\Backups  ",
        true,
        "d:\\backups\\WinRehome-backup-1.wrh",
        Some("C:\\Users\\Sunny\\Desktop\\WinRehome Backups\\WinRehome-backup-2.wrh"),
        Some("E:\\Old\\WinRehome-backup-0.wrh"),
    );
    assert_eq!(
        dirs,
        vec![
            "C:\\Users\\Sunny\\Desktop\\WinRehome Backups".to_string(),
            "D:\\Backups".to_string(),
            "E:\\Old".to_string(),
        ]
    );
    let without_output = recent_archive_search_dirs(None, "D:\\Backups", false, "", None, None);
    assert!(without_output.is_empty());
}
