use winrehome::models::{PathStats, PortableAppCandidate, PortableConfidence, UserDataRoot};
use winrehome::plan::{infer_portable_display_name, is_known_noise, is_system_install_path, normalize_portable_display_name};
use winrehome::userdata::{
    custom_user_data_category, default_custom_user_data_label, default_user_data_candidates,
    filter_user_data_roots_against_portable_candidates,
};

#[test]
fn treats_common_noise_directories_as_excluded() {
    assert!(is_known_noise("C:\\Users\\Sunny\\AppData\\Local\\Temp"));
    assert!(is_known_noise("D:\\PortableApps\\Tool\\node_modules"));
    assert!(!is_known_noise("D:\\PortableApps\\BinaryNinja\\plugins"));
}

#[test]
fn detects_system_install_paths() {
    assert!(is_system_install_path("C:\\Program Files\\Git\\bin\\git.exe"));
    assert!(is_system_install_path("C:\\Windows\\System32\\notepad.exe"));
    assert!(!is_system_install_path("D:\\PortableApps\\GitPortable"));
}

#[test]
fn display_name_helpers_reject_versions_and_keep_real_names() {
    assert_eq!(normalize_portable_display_name("CoolApp"), Some("CoolApp".to_string()));
    assert!(normalize_portable_display_name("1.2.3").is_none());
    assert!(normalize_portable_display_name("12345").is_none());
    assert!(normalize_portable_display_name("x64").is_none());
}

#[test]
fn display_name_inference_uses_executable_when_container_name_is_generic() {
    let root = "D:\\Tools\\x64";
    let main_executable = "D:\\Tools\\x64\\ScreenToGif.exe";

    let inferred = infer_portable_display_name(root, main_executable, false);

    assert_eq!(inferred.as_deref(), Some("ScreenToGif"));
}

#[test]
fn noise_matching_uses_leaf_name_only() {
    assert!(is_known_noise("D:\\foo\\bin"));
    assert!(is_known_noise("C:\\MediaCrawlerPro\\MediaCrawlerPro-Python\\.venv"));
    assert!(is_known_noise("C:\\MediaCrawlerPro\\MediaCrawlerPro-Python\\.venv\\Lib\\site-packages"));
    assert!(is_known_noise("C:\\MediaCrawlerPro\\MediaCrawlerPro-Python\\.venv\\Lib\\site-packages\\distlib"));
    assert!(!is_known_noise("D:\\foo\\binary\\app.exe"));
}

#[test]
fn user_data_candidates_cover_more_high_value_settings() {
    let profile = "C:\\Users\\Sunny";
    let roaming = "C:\\Users\\Sunny\\AppData\\Roaming";
    let local = "C:\\Users\\Sunny\\AppData\\Local";
    let candidates = default_user_data_candidates(profile, roaming, local);
    let labels: Vec<&str> = candidates.iter().map(|candidate| candidate.label.as_str()).collect();

    assert!(labels.contains(&"Saved Games"));
    assert!(labels.contains(&"PowerShell Profile"));
    assert!(labels.contains(&"Firefox Profiles"));
    assert!(labels.contains(&"Notepad++"));
    assert!(labels.contains(&"OBS Studio"));
}

#[test]
fn custom_user_data_helpers_detect_settings_and_default_labels() {
    assert_eq!(custom_user_data_category("C:\\Users\\Sunny\\AppData\\Roaming\\Foo\\config.json"), "Custom Settings");
    assert_eq!(custom_user_data_category("D:\\Archive\\Research"), "Custom Files");
    assert_eq!(default_custom_user_data_label("D:\\Archive\\Research"), "Research");
    assert_eq!(default_custom_user_data_label("C:\\Users\\Sunny\\.tool-rc"), ".tool-rc");
}

#[test]
fn removes_personal_candidates_nested_under_portable_root() {
    let roots = vec![
        UserDataRoot {
            category: "Personal Media".into(),
            label: "images".into(),
            path: "C:\\die\\images".into(),
            reason: "nested".into(),
            stats: PathStats { file_count: 10, total_bytes: 1024 },
        },
        UserDataRoot {
            category: "App Data".into(),
            label: "peid".into(),
            path: "C:\\die\\peid".into(),
            reason: "nested".into(),
            stats: PathStats { file_count: 2, total_bytes: 512 },
        },
        UserDataRoot {
            category: "Personal Files".into(),
            label: "Documents".into(),
            path: "D:\\Documents".into(),
            reason: "outside".into(),
            stats: PathStats { file_count: 3, total_bytes: 256 },
        },
    ];
    let portable_candidates = vec![PortableAppCandidate {
        display_name: "die".to_string(),
        root_path: "C:\\die".to_string(),
        main_executable: "C:\\die\\die.exe".to_string(),
        confidence: PortableConfidence::High,
        stats: PathStats { file_count: 100, total_bytes: 4096 },
        reasons: vec![],
    }];

    let filtered = filter_user_data_roots_against_portable_candidates(roots, &portable_candidates);
    let labels: Vec<&str> = filtered.iter().map(|root| root.label.as_ref()).collect();

    assert_eq!(filtered.len(), 1);
    assert!(labels.contains(&"Documents"));
    assert!(!labels.contains(&"images"));
    assert!(!labels.contains(&"peid"));
}
