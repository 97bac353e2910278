use winrehome::portable::{PortableNext, root_file_is_evaluated};
use winrehome::installed::InstalledAppCollector;
use winrehome::models::{PathStats, PortableConfidence};
use winrehome::portable::{
    DirEntryName, ParentPlan, PortableDirectoryEvidence, PortableScan, PortableScanStep, assess_portable_directory,
    assess_portable_executable, count_sibling_portable_support_files, portable_scan_step,
};
use winrehome::userdata::{
    CustomUserDataRoot, DiscoveredUserDataCandidate, DiscoveryStep, ScanRootDiscovery, UserDataCandidateSpec,
    UserDataDirectoryEvidence, UserDataValueKind, classify_scan_root_user_file_candidate, classify_user_data_directory_kind,
    classify_user_data_file_kind, custom_user_data_candidates, discovery_step, reconcile_discovered_user_data_candidates,
    user_data_file_candidate_score, user_data_roots_from,
};
use winrehome::walk::{WalkAction, WalkEntry, path_stats_without_walk, record_stats_entry};

fn file(path: &str, depth: usize, len: u64) -> WalkEntry {
    WalkEntry { path: path.to_string(), depth, is_dir: false, is_file: true, len: Some(len) }
}

fn dir(path: &str, depth: usize) -> WalkEntry {
    WalkEntry { path: path.to_string(), depth, is_dir: true, is_file: false, len: None }
}

fn portable_evidence(root: &str, entries: &[WalkEntry]) -> PortableDirectoryEvidence {
    let mut evidence = PortableDirectoryEvidence::new_for_directory(root);
    for entry in entries {
        evidence.record_entry(entry);
    }
    evidence
}

fn user_evidence(root: &str, entries: &[WalkEntry]) -> UserDataDirectoryEvidence {
    let mut evidence = UserDataDirectoryEvidence::new_for_directory(root);
    for entry in entries {
        if evidence.record_entry(entry) == WalkAction::Stop {
            break;
        }
    }
    evidence
}

#[test]
fn classifies_files_by_extension_and_name_when_not_empty() {
    assert_eq!(classify_user_data_file_kind("C:\\x\\zh-cn_windows_11_business.iso", Some(3)), Some(UserDataValueKind::DiskImages));
    assert_eq!(classify_user_data_file_kind("C:\\x\\report.DOCX", Some(3)), Some(UserDataValueKind::Documents));
    assert_eq!(classify_user_data_file_kind("C:\\x\\analysis.ipynb", Some(3)), Some(UserDataValueKind::DeveloperData));
    assert_eq!(classify_user_data_file_kind("C:\\x\\global_config", Some(3)), Some(UserDataValueKind::AppData));
    assert_eq!(classify_user_data_file_kind("C:\\x\\empty.iso", Some(0)), None);
    assert_eq!(classify_user_data_file_kind("C:\\x\\unknown.bin", Some(3)), None);
    let candidate = classify_scan_root_user_file_candidate("C:\\x\\zh-cn_windows_11_business.iso", Some(3)).unwrap();
    assert_eq!(candidate.category, "Disk Images");
    assert_eq!(candidate.label, "zh-cn_windows_11_business.iso");
    assert_eq!(user_data_file_candidate_score("C:\\x\\a.iso", Some(5 * 1024 * 1024)), 155);
    assert_eq!(user_data_file_candidate_score("C:\\x\\a.iso", Some(500 * 1024 * 1024)), 200);
}

#[test]
fn classifies_folders_from_what_is_found_in_them() {
    let wallpapers = user_evidence("C:\\s\\Wallpapers", &[file("C:\\s\\Wallpapers\\1.jpg", 1, 3)]);
    assert_eq!(classify_user_data_directory_kind(&wallpapers), Some(UserDataValueKind::Media));
    let notebooks = user_evidence("C:\\s\\Research", &[file("C:\\s\\Research\\analysis.ipynb", 1, 3)]);
    assert_eq!(classify_user_data_directory_kind(&notebooks), Some(UserDataValueKind::DeveloperData));
    let avd = user_evidence("C:\\s\\AndroidDevices", &[dir("C:\\s\\AndroidDevices\\Pixel_9.avd", 1)]);
    assert_eq!(avd.android_avd_child_dirs, 1);
    assert_eq!(classify_user_data_directory_kind(&avd), Some(UserDataValueKind::DeveloperData));
    let chat = user_evidence(
        "C:\\s\\ChatData",
        &[
            dir("C:\\s\\ChatData\\config", 1),
            dir("C:\\s\\ChatData\\backup", 1),
            file("C:\\s\\ChatData\\config\\global_config", 2, 3),
            file("C:\\s\\ChatData\\config\\key_info.db", 2, 3),
            file("C:\\s\\ChatData\\backup\\session.dat", 2, 3),
            file("C:\\s\\ChatData\\backup\\meta.json", 2, 3),
        ],
    );
    assert_eq!(chat.config_dir_hits, 2);
    assert_eq!(classify_user_data_directory_kind(&chat), Some(UserDataValueKind::AppData));
    let mut many = UserDataDirectoryEvidence::new_for_directory("C:\\s\\big");
    for i in 0..399 {
        assert_eq!(many.record_entry(&file(&format!("C:\\s\\big\\{i}.txt"), 1, 1)), WalkAction::Continue);
    }
    assert_eq!(many.record_entry(&file("C:\\s\\big\\last.txt", 1, 1)), WalkAction::Stop);
    assert_eq!(many.document_files, 399);
}

#[test]
fn discovery_walk_skips_noise_and_system_folders() {
    let keys = vec!["d:\\excluded".to_string()];
    assert_eq!(discovery_step("D:\\", &dir("D:\\Windows", 1), &keys), DiscoveryStep::Skip(WalkAction::SkipDir));
    assert_eq!(discovery_step("D:\\", &dir("D:\\excluded", 1), &keys), DiscoveryStep::Skip(WalkAction::SkipDir));
    assert_eq!(discovery_step("D:\\", &dir("D:\\temp", 1), &keys), DiscoveryStep::Skip(WalkAction::SkipDir));
    assert_eq!(discovery_step("D:\\", &file("D:\\a.iso", 1, 3), &keys), DiscoveryStep::ClassifyFile);
    assert_eq!(discovery_step("D:\\", &file("D:\\x\\a.iso", 2, 3), &keys), DiscoveryStep::Skip(WalkAction::Continue));
    assert_eq!(discovery_step("D:\\", &dir("D:\\Research", 1), &keys), DiscoveryStep::EvaluateDirectory);
}

#[test]
fn discovery_keeps_parent_over_nested_candidates_and_sorts_by_label() {
    let mut discovery = ScanRootDiscovery::new();
    discovery.add_file("D:\\zh-cn_windows_11_business.iso", Some(3));
    let sdk = user_evidence(
        "D:\\android-sdk",
        &[dir("D:\\android-sdk\\platforms", 1), dir("D:\\android-sdk\\skins", 1), dir("D:\\android-sdk\\sources", 1)],
    );
    discovery.add_directory("D:\\android-sdk", &sdk);
    let nested = user_evidence("D:\\android-sdk\\platforms", &[file("D:\\android-sdk\\platforms\\a.ipynb", 1, 3)]);
    discovery.add_directory("D:\\android-sdk\\platforms", &nested);
    let found = discovery.finish();
    let labels: Vec<&str> = found.iter().map(|c| c.label.as_str()).collect();
    assert_eq!(labels, vec!["android-sdk", "zh-cn_windows_11_business.iso"]);
}

#[test]
fn reconcile_prefers_higher_scores() {
    let spec = |label: &str, path: &str| UserDataCandidateSpec {
        category: "c".to_string(),
        label: label.to_string(),
        path: path.to_string(),
        reason: "r".to_string(),
    };
    let kept = reconcile_discovered_user_data_candidates(vec![
        DiscoveredUserDataCandidate { spec: spec("outer", "D:\\a"), score: 100 },
        DiscoveredUserDataCandidate { spec: spec("inner", "D:\\a\\b"), score: 150 },
        DiscoveredUserDataCandidate { spec: spec("apart", "D:\\c"), score: 90 },
    ]);
    let labels: Vec<&str> = kept.iter().map(|c| c.label.as_str()).collect();
    assert_eq!(labels, vec!["apart", "inner"]);
}

#[test]
fn user_added_paths_become_candidates_when_they_exist() {
    let roots = vec![
        CustomUserDataRoot { path: "D:\\Archive\\Research".to_string(), label: Some("  My Research ".to_string()) },
        CustomUserDataRoot { path: "C:\\Users\\Sunny\\.tool-rc".to_string(), label: Some("   ".to_string()) },
        CustomUserDataRoot { path: "Z:\\missing".to_string(), label: None },
    ];
    let candidates = custom_user_data_candidates(&roots, &[true, true, false]);
    assert_eq!(candidates.len(), 2);
    assert_eq!(candidates[0].label, "My Research");
    assert_eq!(candidates[0].category, "Custom Files");
    assert_eq!(candidates[1].label, ".tool-rc");
    assert_eq!(candidates[1].category, "Custom Settings");
    assert_eq!(candidates[1].reason, "User-added custom migration path.");
    let stats = vec![PathStats { file_count: 1, total_bytes: 2 }; 2];
    let measured = user_data_roots_from(&candidates, &[true, true], &stats);
    assert_eq!(measured.len(), 2);
    assert_eq!(measured[1].stats.total_bytes, 2);
}

#[test]
fn portable_folder_with_support_files_gets_high_confidence() {
    let root = "C:\\t\\winrehome-portable";
    let evidence = portable_evidence(
        root,
        &[file("C:\\t\\winrehome-portable\\Tool.exe", 1, 3), file("C:\\t\\winrehome-portable\\tool.ini", 1, 3),
          file("C:\\t\\winrehome-portable\\tool.json", 1, 4), file("C:\\t\\winrehome-portable\\tool.db", 1, 2)],
    );
    assert_eq!(evidence.support_file_hits, 3);
    let assessment = assess_portable_directory(root, &[], true, &evidence).expect("portable candidate expected");
    assert_eq!(assessment.confidence, PortableConfidence::High);
    let candidate = assessment.into_candidate(root, PathStats { file_count: 4, total_bytes: 12 });
    assert_eq!(candidate.confidence_label(), "high");
    assert_eq!(candidate.reasons, vec!["1 executable(s) found", "3 support/config file(s) found"]);
}

#[test]
fn portable_folder_prefers_meaningful_executable_name_over_numeric_folder_name() {
    let root = "C:\\t\\12345";
    let evidence = portable_evidence(
        root,
        &[file("C:\\t\\12345\\12345.exe", 1, 3), file("C:\\t\\12345\\CoolApp.exe", 1, 3), file("C:\\t\\12345\\config.ini", 1, 3)],
    );
    let assessment = assess_portable_directory(root, &[], true, &evidence).expect("portable candidate expected");
    assert_eq!(assessment.display_name, "CoolApp");
    assert_eq!(assessment.main_executable, "C:\\t\\12345\\CoolApp.exe");
}

#[test]
fn portable_folders_without_evidence_or_like_source_projects_are_rejected() {
    let weak = portable_evidence("C:\\t\\12345", &[file("C:\\t\\12345\\CoolApp.exe", 1, 3)]);
    assert!(assess_portable_directory("C:\\t\\12345", &[], true, &weak).is_none());
    let project = portable_evidence(
        "C:\\t\\proj",
        &[dir("C:\\t\\proj\\src", 1), dir("C:\\t\\proj\\.venv", 1), file("C:\\t\\proj\\MediaCrawlerPro.exe", 1, 3),
          file("C:\\t\\proj\\pyproject.toml", 1, 3)],
    );
    assert_eq!(project.development_marker_hits, 3);
    assert!(assess_portable_directory("C:\\t\\proj", &[], true, &project).is_none());
    let setup_only = portable_evidence("C:\\t\\setup", &[file("C:\\t\\setup\\Setup.exe", 1, 3), file("C:\\t\\setup\\tool.ini", 1, 3)]);
    assert_eq!(setup_only.installer_executable_hits, 1);
    assert!(assess_portable_directory("C:\\t\\setup", &[], true, &setup_only).is_none());
    let matching = portable_evidence("C:\\t\\CoolApp", &[file("C:\\t\\CoolApp\\CoolApp.exe", 1, 3)]);
    assert!(assess_portable_directory("C:\\t\\CoolApp", &[], true, &matching).is_some());
    assert!(assess_portable_directory("C:\\Program Files\\CoolApp", &[], true, &matching).is_none());
}

#[test]
fn single_executable_needs_support_or_a_matching_folder() {
    let exe = "C:\\t\\single\\Tool.exe";
    let siblings = vec![
        DirEntryName { name: "Tool.exe".to_string(), is_file: true },
        DirEntryName { name: "tool.ini".to_string(), is_file: true },
        DirEntryName { name: "package.json".to_string(), is_file: true },
        DirEntryName { name: "data".to_string(), is_file: false },
    ];
    assert_eq!(count_sibling_portable_support_files(exe, &siblings), 1);
    let parent = portable_evidence("C:\\t\\single", &[file(exe, 1, 3), file("C:\\t\\single\\tool.ini", 1, 3)]);
    let assessment = assess_portable_executable(exe, &[], &siblings, &Some(parent)).expect("single executable candidate expected");
    assert_eq!(assessment.display_name, "Tool");
    assert_eq!(assessment.main_executable, exe);
    assert_eq!(assessment.confidence, PortableConfidence::Medium);
    assert_eq!(assessment.reasons, vec!["single executable candidate found", "1 sibling support/config file(s) found"]);
    let numeric = "C:\\t\\n\\12345.exe";
    assert!(assess_portable_executable(numeric, &[], &[], &None).is_none());
    assert!(assess_portable_executable("C:\\t\\x\\ToolSetup.exe", &[], &siblings, &None).is_none());
    assert!(assess_portable_executable("C:\\t\\x\\Launcher.exe", &[], &siblings, &None).is_none());
    assert!(assess_portable_executable("C:\\t\\x\\t64.exe", &[], &siblings, &None).is_none());
    assert!(assess_portable_executable("C:\\t\\.venv\\Scripts\\pip.exe", &[], &siblings, &None).is_none());
    let curated = assess_portable_executable("D:\\PortableApps\\Foo.exe", &[], &[], &None).expect("curated location counts");
    assert_eq!(curated.confidence, PortableConfidence::High);
}

#[test]
fn portable_scan_keeps_each_root_once_and_sorts_by_name() {
    let installed = vec!["C:\\Apps\\Installed".to_string()];
    assert_eq!(portable_scan_step("C:\\", &dir("C:\\Windows", 1), &[], &installed), PortableScanStep::Skip(WalkAction::SkipDir));
    assert_eq!(portable_scan_step("C:\\", &dir("C:\\Apps\\Installed", 2), &[], &installed), PortableScanStep::Skip(WalkAction::SkipDir));
    assert_eq!(portable_scan_step("C:\\", &file("C:\\Tools\\a.exe", 2, 3), &[], &installed), PortableScanStep::Executable);
    let mut scan = PortableScan::new();
    match scan.plan_parent("D:\\Apps\\Zed\\Zed.exe") {
        ParentPlan::Evaluate(p) => assert_eq!(p, "D:\\Apps\\Zed"),
        other => panic!("unexpected {other:?}"),
    }
    let evidence = portable_evidence("D:\\Apps\\Zed", &[file("D:\\Apps\\Zed\\Zed.exe", 1, 3)]);
    let candidate = assess_portable_directory("D:\\Apps\\Zed", &[], true, &evidence)
        .map(|a| a.into_candidate("D:\\Apps\\Zed", PathStats::default()));
    assert!(scan.add_candidate(candidate));
    assert!(matches!(scan.plan_parent("D:\\Apps\\Zed\\helper.exe"), ParentPlan::AlreadyAccepted));
    let evidence = portable_evidence("D:\\Apps\\Atom", &[file("D:\\Apps\\Atom\\Atom.exe", 1, 3)]);
    let atom = assess_portable_directory("D:\\Apps\\Atom", &[], true, &evidence).map(|a| a.into_candidate("D:\\Apps\\Atom", PathStats::default()));
    assert!(scan.add_candidate(atom.clone()));
    assert!(scan.add_candidate(atom));
    let found = scan.finish();
    let names: Vec<&str> = found.iter().map(|c| c.display_name.as_str()).collect();
    assert_eq!(names, vec!["Atom", "Zed"]);
}

#[test]
fn installed_apps_need_a_name_and_drop_repeats() {
    let mut collector = InstalledAppCollector::new();
    assert!(collector.add_registry_entry("hklm-64", "Git_is1", Some("Git"), Some("C:\\Program Files\\Git"), Some(PathStats { file_count: 1, total_bytes: 1 })));
    assert!(!collector.add_registry_entry("hklm-32", "Git_is1", Some("GIT"), Some("c:\\program files\\git"), None));
    assert!(!collector.add_registry_entry("hklm-64", "x", Some("   "), None, None));
    assert!(!collector.add_registry_entry("hklm-64", "x", None, None, None));
    assert!(collector.add_registry_entry("hkcu-64", "Alpha", Some("Alpha"), Some("  "), Some(PathStats::default())));
    let records = collector.finish();
    assert_eq!(records.len(), 2);
    assert_eq!(records[0].display_name, "Alpha");
    assert!(records[0].install_location.is_none());
    assert!(records[0].install_stats.is_none());
    assert_eq!(records[1].display_name, "Git");
}

#[test]
fn stats_walk_counts_files_and_skips_noise() {
    assert_eq!(path_stats_without_walk(false, false, None).unwrap().file_count, 0);
    assert_eq!(path_stats_without_walk(true, true, Some(9)).unwrap().total_bytes, 9);
    assert!(path_stats_without_walk(true, false, None).is_none());
    let mut stats = PathStats::default();
    assert_eq!(record_stats_entry(&mut stats, &dir("D:\\x", 0)), WalkAction::Continue);
    assert_eq!(record_stats_entry(&mut stats, &file("D:\\x\\a.txt", 1, 10)), WalkAction::Continue);
    assert_eq!(record_stats_entry(&mut stats, &dir("D:\\x\\cache", 1)), WalkAction::SkipDir);
    assert_eq!(record_stats_entry(&mut stats, &file("D:\\x\\b.txt", 1, 5)), WalkAction::Continue);
    assert_eq!((stats.file_count, stats.total_bytes), (2, 15));
}

#[test]
fn user_data_roots_keep_each_existing_path_key_once() {
    let spec = |label: &str, path: &str| UserDataCandidateSpec {
        category: "Personal Files".to_string(),
        label: label.to_string(),
        path: path.to_string(),
        reason: "r".to_string(),
    };
    let candidates = vec![
        spec("Documents", "C:\\Users\\Sunny\\Documents"),
        spec("Docs again", "c:\\users\\sunny\\documents"),
        spec("Missing", "C:\\Users\\Sunny\\Missing"),
        spec("Music", "C:\\Users\\Sunny\\Music"),
    ];
    let stats = vec![
        PathStats { file_count: 1, total_bytes: 10 },
        PathStats { file_count: 2, total_bytes: 20 },
        PathStats { file_count: 0, total_bytes: 0 },
        PathStats { file_count: 3, total_bytes: 30 },
    ];
    let roots = user_data_roots_from(&candidates, &[true, true, false, true], &stats);
    let labels: Vec<&str> = roots.iter().map(|root| root.label.as_str()).collect();
    assert_eq!(labels, vec!["Documents", "Music"]);
    assert_eq!(roots[1].stats.total_bytes, 30);
}

#[test]
fn an_executable_outside_an_accepted_folder_is_evaluated_alone() {
    let mut scan = PortableScan::new();
    match scan.begin_executable("D:\\Apps\\Tool\\tool.exe") {
        PortableNext::Directory(p) => assert_eq!(p, "D:\\Apps\\Tool"),
        other => panic!("unexpected {other:?}"),
    }
    assert!(matches!(scan.after_directory(None), PortableNext::Executable));
    assert!(matches!(scan.begin_executable("D:\\Apps\\Tool\\other.exe"), PortableNext::Executable));
    assert!(matches!(scan.begin_executable("tool.exe"), PortableNext::Executable));
    assert!(root_file_is_evaluated("D:\\Tools\\tool.exe", true));
    assert!(!root_file_is_evaluated("D:\\Tools\\tool.exe", false));
    assert!(!root_file_is_evaluated("D:\\Tools\\notes.txt", true));
}
