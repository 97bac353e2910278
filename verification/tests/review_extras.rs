use winrehome::archive::ManifestInstalledApp;
use winrehome::models::{InstalledAppRecord, PathStats, UserDataRoot};
use winrehome::plan::BackupPreview;
use winrehome::review::{
    BackupWorkflowPage, ScanRootEntry, WorkspaceView, configured_path_entries, first_available_backup_page, path_for_picker,
    present_backup_error, present_restore_error, resolve_backup_output_dir, resolved_workspace, sanitize_restore_segment,
    saved_path_entries, summarize_restore_installed_app_dirs,
};

fn installed(name: &str, root: Option<&str>, location: Option<&str>) -> ManifestInstalledApp {
    ManifestInstalledApp {
        display_name: name.to_string(),
        source: "hklm-64".to_string(),
        install_location: location.map(str::to_string),
        backup_root: root.map(str::to_string),
        files_included: root.is_some(),
        uninstall_key: name.to_lowercase(),
    }
}

#[test]
fn restore_errors_are_explained_by_their_cause() {
    assert_eq!(
        present_restore_error("restore target already exists: D:\\R\\a.txt"),
        "恢复中止：目标目录里已经有同名文件。可以改用新的恢复目录，或启用“跳过已存在文件”。"
    );
    assert_eq!(
        present_restore_error("Archive does not contain any files to restore."),
        "当前恢复范围里没有可写出的文件。请先检查恢复范围选择。"
    );
    assert_eq!(
        present_restore_error("restore destination is an existing file: D:\\R"),
        "恢复目标无效：你选择的是一个文件，不是目录。请改成文件夹路径。"
    );
    assert_eq!(
        present_restore_error("restore target is blocked by existing file: D:\\R"),
        "恢复目标无效：目标路径中有某一层已经是文件，无法继续创建目录。请改用别的恢复位置。"
    );
    assert_eq!(
        present_restore_error("restore target path is duplicated in archive: D:\\R\\a"),
        "归档内容校验失败：存在重复的恢复目标路径，已阻止本次恢复。"
    );
    assert_eq!(present_restore_error("failed to create restore destination D:\\R"), "无法创建恢复目录。请检查目标路径是否可写。");
    assert_eq!(
        present_restore_error("archive entry path escapes restore root: ../x"),
        "归档内容校验失败：发现了越界路径，WinRehome 已阻止这次恢复。"
    );
    assert_eq!(present_restore_error("something else"), "something else");
}

#[test]
fn backup_errors_are_explained_by_their_cause() {
    assert_eq!(
        present_backup_error("backup output path is an existing file: D:\\o"),
        "备份输出路径无效：你选中了一个文件，不是目录。请改成文件夹路径。"
    );
    assert_eq!(
        present_backup_error("backup output path is blocked by existing file: D:\\o"),
        "备份输出路径无效：目标路径中有某一层已经是文件，无法继续创建目录。"
    );
    assert_eq!(
        present_backup_error("backup output path overlaps selected source directory: D:\\s"),
        "备份输出路径无效：备份目录落在已选源目录里面，会和源数据混在一起。请换一个目录。"
    );
    assert_eq!(
        present_backup_error("duplicate archive entry path: user/a"),
        "备份内容存在重复目标路径，已阻止生成归档。请调整选择范围后重试。"
    );
    assert_eq!(
        present_backup_error("No files are selected for backup."),
        "当前没有可打包的内容。请先选择至少一个用户目录或便携软件。"
    );
    assert_eq!(present_backup_error("failed to create backup output directory D:\\o"), "无法创建备份目录。请检查目标路径是否可写。");
    assert_eq!(
        present_backup_error("failed to create D:\\o\\a.wrh.partial"),
        "无法写入备份归档。请检查目标目录是否可写，或确认同名文件没有被占用。"
    );
    assert_eq!(present_backup_error("disk full"), "disk full");
}

#[test]
fn first_backup_page_is_the_first_kind_that_has_results() {
    let mut preview = BackupPreview { installed_apps: vec![], portable_candidates: vec![], user_data_roots: vec![] };
    assert_eq!(first_available_backup_page(&preview), BackupWorkflowPage::ScanScope);
    preview.installed_apps.push(InstalledAppRecord {
        display_name: "Git".to_string(),
        source: "hklm-64".to_string(),
        install_location: None,
        install_stats: None,
        uninstall_key: "git".to_string(),
    });
    assert_eq!(first_available_backup_page(&preview), BackupWorkflowPage::InstalledApps);
    preview.user_data_roots.push(UserDataRoot {
        category: "Files".to_string(),
        label: "Documents".to_string(),
        path: "C:\\Users\\Sunny\\Documents".to_string(),
        reason: "documents".to_string(),
        stats: PathStats { file_count: 1, total_bytes: 2 },
    });
    assert_eq!(first_available_backup_page(&preview), BackupWorkflowPage::UserData);
    assert_eq!(resolved_workspace(WorkspaceView::Restore, false, false), WorkspaceView::Restore);
}

#[test]
fn restore_segments_are_sanitized_and_trimmed() {
    assert_eq!(sanitize_restore_segment(" a:b/c?. "), "a_b_c_");
    assert_eq!(sanitize_restore_segment("..hidden.."), "hidden");
}

#[test]
fn picker_starts_in_the_folder_of_the_typed_path() {
    assert_eq!(path_for_picker("  D:\\Docs\\a.txt ", false).as_deref(), Some("D:\\Docs"));
    assert_eq!(path_for_picker("D:\\Docs", true).as_deref(), Some("D:\\Docs"));
    assert_eq!(path_for_picker("   ", true), None);
}

#[test]
fn configured_roots_are_trimmed_existing_unique_and_collapsed() {
    let entries: Vec<ScanRootEntry> = [" D:\\Data ", "   ", "d:\\data", "D:\\Data\\Sub", "E:\\Missing", "F:\\"]
        .iter()
        .map(|path| ScanRootEntry { path: path.to_string() })
        .collect();
    let roots = configured_path_entries(&entries, &[true, true, true, true, false, true]);
    assert_eq!(roots, vec!["F:\\".to_string(), "D:\\Data".to_string()]);
    let saved = saved_path_entries(&entries);
    let saved_paths: Vec<(&str, bool)> = saved.iter().map(|root| (root.path.as_str(), root.enabled)).collect();
    assert_eq!(
        saved_paths,
        vec![("D:\\Data", true), ("d:\\data", true), ("D:\\Data\\Sub", true), ("E:\\Missing", true), ("F:\\", true)]
    );
}

#[test]
fn blank_output_input_falls_back_to_the_default_folder() {
    assert_eq!(
        resolve_backup_output_dir("   ", Some("C:\\Users\\Sunny"), "D:\\work"),
        "C:\\Users\\Sunny\\Desktop\\WinRehome Backups"
    );
    assert_eq!(resolve_backup_output_dir("   ", None, "D:\\work"), "D:\\work\\WinRehome Backups");
    assert_eq!(resolve_backup_output_dir(" E:\\Out ", Some("C:\\Users\\Sunny"), "D:\\work"), "E:\\Out");
}

#[test]
fn installed_app_summary_counts_only_apps_with_backed_up_files() {
    let apps = vec![
        installed("Zed", Some("installed/Zed__hklm-64__zed"), Some("C:\\Apps\\Zed")),
        installed("Notes", None, Some("C:\\Apps\\Notes")),
        installed("Atom", Some("installed/Atom__hklm-64__atom"), None),
    ];
    let selected = vec!["installed/Zed__hklm-64__zed".to_string()];
    let all = summarize_restore_installed_app_dirs(&apps, "", false, &selected);
    assert_eq!(all.filtered_count, 2);
    assert_eq!(all.visible_keys, vec!["installed/Zed__hklm-64__zed".to_string(), "installed/Atom__hklm-64__atom".to_string()]);
    assert_eq!((all.visible_selected_count, all.visible_unselected_count), (1, 1));
    let unselected = summarize_restore_installed_app_dirs(&apps, "", true, &selected);
    assert_eq!(unselected.visible_keys, vec!["installed/Atom__hklm-64__atom".to_string()]);
    let filtered = summarize_restore_installed_app_dirs(&apps, "apps\\zed", false, &selected);
    assert_eq!(filtered.filtered_count, 1);
}
