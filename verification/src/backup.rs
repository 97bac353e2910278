//! Writing a backup: which folders and files a selection collects, under which
//! archive paths, the manifest that describes them and the archive's byte layout.
use vstd::prelude::*;
use crate::archive::{
    ArchiveManifest, ArchivedFileEntry, FORMAT_VERSION, ManifestInstalledApp, ManifestPortableApp,
    ManifestRoot, PendingFile, sanitize_segment, spec_sanitize_segment,
};
use crate::models::{InstalledAppRecord, PortableAppCandidate, UserDataRoot, spec_confidence_label};
use crate::plan::{BackupPreview, path_key, spec_path_key};
use crate::text::{chars_of, extend_str, key_views, string_from, strings_contain};

verus! {

/// The archive root of an installed application's folder.
pub open spec fn spec_installed_app_backup_root(display_name: Seq<char>, source: Seq<char>, uninstall_key: Seq<char>) -> Seq<char> {
    "installed/"@ + spec_sanitize_segment(display_name) + "__"@ + spec_sanitize_segment(source) + "__"@
        + spec_sanitize_segment(uninstall_key)
}

/// `installed/<name>__<source>__<key>`, each part sanitized.
pub fn installed_app_backup_root(app: &InstalledAppRecord) -> (r: String)
    ensures
        r@ == spec_installed_app_backup_root(app.display_name@, app.source@, app.uninstall_key@),
{
    let mut v: Vec<char> = Vec::new();
    extend_str(&mut v, "installed/");
    extend_str(&mut v, sanitize_segment(app.display_name.as_str()).as_str());
    extend_str(&mut v, "__");
    extend_str(&mut v, sanitize_segment(app.source.as_str()).as_str());
    extend_str(&mut v, "__");
    extend_str(&mut v, sanitize_segment(app.uninstall_key.as_str()).as_str());
    string_from(v.as_slice())
}

/// The archive root of a personal-data root.
pub open spec fn spec_user_archive_root(category: Seq<char>, label: Seq<char>) -> Seq<char> {
    "user/"@ + spec_sanitize_segment(category) + "/"@ + spec_sanitize_segment(label)
}

/// `user/<category>/<label>`, each part sanitized.
pub fn user_archive_root(category: &str, label: &str) -> (r: String)
    ensures
        r@ == spec_user_archive_root(category@, label@),
{
    let mut v: Vec<char> = Vec::new();
    extend_str(&mut v, "user/");
    extend_str(&mut v, sanitize_segment(category).as_str());
    extend_str(&mut v, "/");
    extend_str(&mut v, sanitize_segment(label).as_str());
    string_from(v.as_slice())
}

/// The archive root of a portable application.
pub open spec fn spec_portable_archive_root(display_name: Seq<char>) -> Seq<char> {
    "portable/"@ + spec_sanitize_segment(display_name)
}

/// `portable/<name>`, the name sanitized.
pub fn portable_archive_root(display_name: &str) -> (r: String)
    ensures
        r@ == spec_portable_archive_root(display_name@),
{
    let mut v: Vec<char> = Vec::new();
    extend_str(&mut v, "portable/");
    extend_str(&mut v, sanitize_segment(display_name).as_str());
    string_from(v.as_slice())
}

/// Whether an installed application's folder is selected and can be backed up.
pub open spec fn installed_dir_selected(app: InstalledAppRecord, sel: Seq<Seq<char>>) -> bool {
    sel.contains(app.key()) && app.install_location is Some && app.install_stats is Some
}

/// A folder or file to collect: where it is, its archive root and the entry kind.
#[derive(Debug, Clone)]
pub struct BackupSource {
    pub source_root: String,
    pub archive_root: String,
    pub entry_kind: String,
}

pub open spec fn source_view(s: BackupSource) -> (Seq<char>, Seq<char>, Seq<char>) {
    (s.source_root@, s.archive_root@, s.entry_kind@)
}

/// The selected personal-data roots as sources, in order.
pub open spec fn user_sources(roots: Seq<UserDataRoot>, sel: Seq<Seq<char>>) -> Seq<(Seq<char>, Seq<char>, Seq<char>)>
    decreases roots.len(),
{
    if roots.len() == 0 {
        seq![]
    } else {
        let rest = user_sources(roots.drop_last(), sel);
        let r = roots.last();
        if sel.contains(spec_path_key(r.path@)) {
            rest.push((r.path@, spec_user_archive_root(r.category@, r.label@), "user_data"@))
        } else {
            rest
        }
    }
}

/// The selected portable candidates as sources, in order.
pub open spec fn portable_sources(cands: Seq<PortableAppCandidate>, sel: Seq<Seq<char>>) -> Seq<(Seq<char>, Seq<char>, Seq<char>)>
    decreases cands.len(),
{
    if cands.len() == 0 {
        seq![]
    } else {
        let rest = portable_sources(cands.drop_last(), sel);
        let c = cands.last();
        if sel.contains(spec_path_key(c.root_path@)) {
            rest.push((c.root_path@, spec_portable_archive_root(c.display_name@), "portable_app"@))
        } else {
            rest
        }
    }
}

/// The selected installed-application folders as sources, in order.
pub open spec fn installed_sources(apps: Seq<InstalledAppRecord>, sel: Seq<Seq<char>>) -> Seq<(Seq<char>, Seq<char>, Seq<char>)>
    decreases apps.len(),
{
    if apps.len() == 0 {
        seq![]
    } else {
        let rest = installed_sources(apps.drop_last(), sel);
        let a = apps.last();
        if installed_dir_selected(a, sel) {
            rest.push(
                (
                    a.install_location.unwrap()@,
                    spec_installed_app_backup_root(a.display_name@, a.source@, a.uninstall_key@),
                    "installed_app"@,
                ),
            )
        } else {
            rest
        }
    }
}

/// Everything a selection collects: personal-data roots, then portable applications,
/// then installed-application folders.
pub open spec fn spec_backup_sources(
    preview: BackupPreview,
    sel_users: Seq<Seq<char>>,
    sel_portable: Seq<Seq<char>>,
    sel_installed: Seq<Seq<char>>,
) -> Seq<(Seq<char>, Seq<char>, Seq<char>)> {
    user_sources(preview.user_data_roots@, sel_users) + portable_sources(preview.portable_candidates@, sel_portable)
        + installed_sources(preview.installed_apps@, sel_installed)
}

fn push_source(out: &mut Vec<BackupSource>, source_root: &str, archive_root: String, entry_kind: &str)
    ensures
        final(out)@.map_values(|s: BackupSource| source_view(s)) == old(out)@.map_values(|s: BackupSource| source_view(s)).push(
            (source_root@, archive_root@, entry_kind@),
        ),
{
    let ghost before = out@;
    out.push(BackupSource { source_root: source_root.to_string(), archive_root, entry_kind: entry_kind.to_string() });
    assert(out@.map_values(|s: BackupSource| source_view(s)) =~= before.map_values(|s: BackupSource| source_view(s)).push(
        (source_root@, archive_root@, entry_kind@),
    ));
}

/// What to collect for a backup of the given selections, in the order it is collected.
pub fn backup_sources(
    preview: &BackupPreview,
    selected_user_roots: &[String],
    selected_portable_apps: &[String],
    selected_installed_app_dirs: &[String],
) -> (r: Vec<BackupSource>)
    ensures
        r@.map_values(|s: BackupSource| source_view(s)) == spec_backup_sources(
            *preview,
            key_views(selected_user_roots@),
            key_views(selected_portable_apps@),
            key_views(selected_installed_app_dirs@),
        ),
{
    let ghost su = key_views(selected_user_roots@);
    let ghost sp = key_views(selected_portable_apps@);
    let ghost si = key_views(selected_installed_app_dirs@);
    let mut out: Vec<BackupSource> = Vec::new();
    let mut i: usize = 0;
    while i < preview.user_data_roots.len()
        invariant
            i <= preview.user_data_roots@.len(),
            su == key_views(selected_user_roots@),
            out@.map_values(|s: BackupSource| source_view(s)) == user_sources(preview.user_data_roots@.take(i as int), su),
        decreases preview.user_data_roots@.len() - i,
    {
        let root = &preview.user_data_roots[i];
        assert(preview.user_data_roots@.take(i + 1).drop_last() == preview.user_data_roots@.take(i as int));
        let key = path_key(root.path.as_str());
        if strings_contain(selected_user_roots, key.as_str()) {
            let archive_root = user_archive_root(root.category.as_str(), root.label.as_str());
            push_source(&mut out, root.path.as_str(), archive_root, "user_data");
        }
        i += 1;
    }
    assert(preview.user_data_roots@.take(i as int) == preview.user_data_roots@);
    let ghost base = out@.map_values(|s: BackupSource| source_view(s));
    let mut i: usize = 0;
    assert(portable_sources(preview.portable_candidates@.take(0), sp) =~= Seq::<(Seq<char>, Seq<char>, Seq<char>)>::empty());
    while i < preview.portable_candidates.len()
        invariant
            i <= preview.portable_candidates@.len(),
            sp == key_views(selected_portable_apps@),
            out@.map_values(|s: BackupSource| source_view(s)) == base + portable_sources(preview.portable_candidates@.take(i as int), sp),
        decreases preview.portable_candidates@.len() - i,
    {
        let cand = &preview.portable_candidates[i];
        assert(preview.portable_candidates@.take(i + 1).drop_last() == preview.portable_candidates@.take(i as int));
        let key = path_key(cand.root_path.as_str());
        if strings_contain(selected_portable_apps, key.as_str()) {
            let archive_root = portable_archive_root(cand.display_name.as_str());
            push_source(&mut out, cand.root_path.as_str(), archive_root, "portable_app");
        }
        i += 1;
    }
    assert(preview.portable_candidates@.take(i as int) == preview.portable_candidates@);
    let ghost base2 = out@.map_values(|s: BackupSource| source_view(s));
    let mut i: usize = 0;
    assert(installed_sources(preview.installed_apps@.take(0), si) =~= Seq::<(Seq<char>, Seq<char>, Seq<char>)>::empty());
    while i < preview.installed_apps.len()
        invariant
            i <= preview.installed_apps@.len(),
            si == key_views(selected_installed_app_dirs@),
            out@.map_values(|s: BackupSource| source_view(s)) == base2 + installed_sources(preview.installed_apps@.take(i as int), si),
        decreases preview.installed_apps@.len() - i,
    {
        let app = &preview.installed_apps[i];
        assert(preview.installed_apps@.take(i + 1).drop_last() == preview.installed_apps@.take(i as int));
        let key = app.selection_key();
        if strings_contain(selected_installed_app_dirs, key.as_str()) && app.can_backup_files() {
            match &app.install_location {
                Some(loc) => {
                    let archive_root = installed_app_backup_root(app);
                    push_source(&mut out, loc.as_str(), archive_root, "installed_app");
                },
                None => {},
            }
        }
        i += 1;
    }
    assert(preview.installed_apps@.take(i as int) == preview.installed_apps@);
    out
}

} // verus!

verus! {

pub open spec fn opt_str_view(o: Option<String>) -> Option<Seq<char>> {
    match o {
        Some(s) => Some(s@),
        None => None,
    }
}

/// An installed application as the manifest records it: name, source, install
/// location, archive root, whether its files were included, uninstall key.
pub open spec fn installed_entry_view(m: ManifestInstalledApp) -> (Seq<char>, Seq<char>, Option<Seq<char>>, Option<Seq<char>>, bool, Seq<char>) {
    (m.display_name@, m.source@, opt_str_view(m.install_location), opt_str_view(m.backup_root), m.files_included, m.uninstall_key@)
}

/// The manifest record of an installed application: every application is recorded;
/// a selected one gets its archive root, and its files are included where its folder
/// can be backed up.
pub open spec fn spec_installed_entry(a: InstalledAppRecord, sel: Seq<Seq<char>>) -> (Seq<char>, Seq<char>, Option<Seq<char>>, Option<Seq<char>>, bool, Seq<char>) {
    (
        a.display_name@,
        a.source@,
        opt_str_view(a.install_location),
        if sel.contains(a.key()) {
            Some(spec_installed_app_backup_root(a.display_name@, a.source@, a.uninstall_key@))
        } else {
            None
        },
        installed_dir_selected(a, sel),
        a.uninstall_key@,
    )
}

pub open spec fn root_entry_view(m: ManifestRoot) -> (Seq<char>, Seq<char>, Seq<char>, Seq<char>) {
    (m.category@, m.label@, m.path@, m.reason@)
}

/// The selected personal-data roots as the manifest records them, in order.
pub open spec fn manifest_user_roots(roots: Seq<UserDataRoot>, sel: Seq<Seq<char>>) -> Seq<(Seq<char>, Seq<char>, Seq<char>, Seq<char>)>
    decreases roots.len(),
{
    if roots.len() == 0 {
        seq![]
    } else {
        let rest = manifest_user_roots(roots.drop_last(), sel);
        let r = roots.last();
        if sel.contains(spec_path_key(r.path@)) {
            rest.push((r.category@, r.label@, r.path@, r.reason@))
        } else {
            rest
        }
    }
}

pub open spec fn portable_entry_view(m: ManifestPortableApp) -> (Seq<char>, Seq<char>, Seq<char>, Seq<char>, Seq<Seq<char>>) {
    (m.display_name@, m.root_path@, m.main_executable@, m.confidence@, key_views(m.reasons@))
}

/// The selected portable applications as the manifest records them, in order.
pub open spec fn manifest_portable_apps(cands: Seq<PortableAppCandidate>, sel: Seq<Seq<char>>) -> Seq<(Seq<char>, Seq<char>, Seq<char>, Seq<char>, Seq<Seq<char>>)>
    decreases cands.len(),
{
    if cands.len() == 0 {
        seq![]
    } else {
        let rest = manifest_portable_apps(cands.drop_last(), sel);
        let c = cands.last();
        if sel.contains(spec_path_key(c.root_path@)) {
            rest.push((c.display_name@, c.root_path@, c.main_executable@, spec_confidence_label(c.confidence), key_views(c.reasons@)))
        } else {
            rest
        }
    }
}

/// A copy of a list of strings.
pub fn copy_strings(v: &Vec<String>) -> (r: Vec<String>)
    ensures
        key_views(r@) == key_views(v@),
{
    let mut r: Vec<String> = Vec::new();
    let mut i: usize = 0;
    while i < v.len()
        invariant
            i <= v@.len(),
            key_views(r@) == key_views(v@.take(i as int)),
        decreases v@.len() - i,
    {
        let ghost before = r@;
        let s = v[i].clone();
        assert(s@ == v@[i as int]@);
        r.push(s);
        assert(key_views(r@) =~= key_views(before).push(v@[i as int]@));
        assert(v@.take(i + 1) =~= v@.take(i as int).push(v@[i as int]));
        i += 1;
        assert(key_views(r@) =~= key_views(v@.take(i as int)));
    }
    assert(v@.take(i as int) == v@);
    r
}

fn optional_copy(o: &Option<String>) -> (r: Option<String>)
    ensures
        opt_str_view(r) == opt_str_view(*o),
{
    match o {
        Some(s) => Some(s.clone()),
        None => None,
    }
}

/// The manifest of a backup: every installed application, the selected personal-data
/// roots and portable applications, the stored files and their totals.
pub fn build_manifest(
    preview: &BackupPreview,
    selected_user_roots: &[String],
    selected_portable_apps: &[String],
    selected_installed_app_dirs: &[String],
    files: Vec<ArchivedFileEntry>,
    original_bytes: u64,
    stored_bytes: u64,
    created_at_unix: u64,
    app_version: &str,
) -> (m: ArchiveManifest)
    ensures
        m.format_version == FORMAT_VERSION,
        m.created_at_unix == created_at_unix,
        m.app_name@ == "WinRehome"@,
        m.app_version@ == app_version@,
        m.installed_apps@.map_values(|x: ManifestInstalledApp| installed_entry_view(x)) == preview.installed_apps@.map_values(
            |a: InstalledAppRecord| spec_installed_entry(a, key_views(selected_installed_app_dirs@)),
        ),
        m.selected_user_roots@.map_values(|x: ManifestRoot| root_entry_view(x)) == manifest_user_roots(
            preview.user_data_roots@,
            key_views(selected_user_roots@),
        ),
        m.selected_portable_apps@.map_values(|x: ManifestPortableApp| portable_entry_view(x)) == manifest_portable_apps(
            preview.portable_candidates@,
            key_views(selected_portable_apps@),
        ),
        m.files@ == files@,
        m.original_bytes == original_bytes,
        m.stored_bytes == stored_bytes,
{
    let ghost si = key_views(selected_installed_app_dirs@);
    let ghost su = key_views(selected_user_roots@);
    let ghost sp = key_views(selected_portable_apps@);
    let mut installed: Vec<ManifestInstalledApp> = Vec::new();
    let mut i: usize = 0;
    while i < preview.installed_apps.len()
        invariant
            i <= preview.installed_apps@.len(),
            si == key_views(selected_installed_app_dirs@),
            installed@.map_values(|x: ManifestInstalledApp| installed_entry_view(x)) == preview.installed_apps@.take(i as int).map_values(
                |a: InstalledAppRecord| spec_installed_entry(a, si),
            ),
        decreases preview.installed_apps@.len() - i,
    {
        let app = &preview.installed_apps[i];
        let key = app.selection_key();
        let selected = strings_contain(selected_installed_app_dirs, key.as_str());
        let backup_root = if selected {
            Some(installed_app_backup_root(app))
        } else {
            None
        };
        let ghost before = installed@;
        let ghost expected = spec_installed_entry(preview.installed_apps@[i as int], si);
        installed.push(
            ManifestInstalledApp {
                display_name: app.display_name.clone(),
                source: app.source.clone(),
                install_location: optional_copy(&app.install_location),
                backup_root,
                files_included: selected && app.can_backup_files(),
                uninstall_key: app.uninstall_key.clone(),
            },
        );
        assert(installed_entry_view(installed@.last()) == expected);
        assert(installed@.map_values(|x: ManifestInstalledApp| installed_entry_view(x)) =~= before.map_values(
            |x: ManifestInstalledApp| installed_entry_view(x),
        ).push(expected));
        assert(preview.installed_apps@.take(i + 1) =~= preview.installed_apps@.take(i as int).push(preview.installed_apps@[i as int]));
        i += 1;
        assert(installed@.map_values(|x: ManifestInstalledApp| installed_entry_view(x)) =~= preview.installed_apps@.take(
            i as int,
        ).map_values(|a: InstalledAppRecord| spec_installed_entry(a, si)));
    }
    assert(preview.installed_apps@.take(i as int) == preview.installed_apps@);
    let mut roots: Vec<ManifestRoot> = Vec::new();
    let mut i: usize = 0;
    while i < preview.user_data_roots.len()
        invariant
            i <= preview.user_data_roots@.len(),
            su == key_views(selected_user_roots@),
            roots@.map_values(|x: ManifestRoot| root_entry_view(x)) == manifest_user_roots(preview.user_data_roots@.take(i as int), su),
        decreases preview.user_data_roots@.len() - i,
    {
        let root = &preview.user_data_roots[i];
        assert(preview.user_data_roots@.take(i + 1).drop_last() == preview.user_data_roots@.take(i as int));
        let key = path_key(root.path.as_str());
        if strings_contain(selected_user_roots, key.as_str()) {
            let ghost before = roots@;
            roots.push(
                ManifestRoot {
                    category: root.category.clone(),
                    label: root.label.clone(),
                    path: root.path.clone(),
                    reason: root.reason.clone(),
                },
            );
            assert(roots@.map_values(|x: ManifestRoot| root_entry_view(x)) =~= before.map_values(|x: ManifestRoot| root_entry_view(x)).push(
                (root.category@, root.label@, root.path@, root.reason@),
            ));
        }
        i += 1;
    }
    assert(preview.user_data_roots@.take(i as int) == preview.user_data_roots@);
    let mut apps: Vec<ManifestPortableApp> = Vec::new();
    let mut i: usize = 0;
    while i < preview.portable_candidates.len()
        invariant
            i <= preview.portable_candidates@.len(),
            sp == key_views(selected_portable_apps@),
            apps@.map_values(|x: ManifestPortableApp| portable_entry_view(x)) == manifest_portable_apps(
                preview.portable_candidates@.take(i as int),
                sp,
            ),
        decreases preview.portable_candidates@.len() - i,
    {
        let cand = &preview.portable_candidates[i];
        assert(preview.portable_candidates@.take(i + 1).drop_last() == preview.portable_candidates@.take(i as int));
        let key = path_key(cand.root_path.as_str());
        if strings_contain(selected_portable_apps, key.as_str()) {
            let ghost before = apps@;
            apps.push(
                ManifestPortableApp {
                    display_name: cand.display_name.clone(),
                    root_path: cand.root_path.clone(),
                    main_executable: cand.main_executable.clone(),
                    confidence: cand.confidence_label().to_string(),
                    reasons: copy_strings(&cand.reasons),
                },
            );
            assert(apps@.map_values(|x: ManifestPortableApp| portable_entry_view(x)) =~= before.map_values(
                |x: ManifestPortableApp| portable_entry_view(x),
            ).push(
                (
                    cand.display_name@,
                    cand.root_path@,
                    cand.main_executable@,
                    spec_confidence_label(cand.confidence),
                    key_views(cand.reasons@),
                ),
            ));
        }
        i += 1;
    }
    assert(preview.portable_candidates@.take(i as int) == preview.portable_candidates@);
    ArchiveManifest {
        format_version: FORMAT_VERSION,
        created_at_unix,
        app_name: "WinRehome".to_string(),
        app_version: app_version.to_string(),
        installed_apps: installed,
        selected_user_roots: roots,
        selected_portable_apps: apps,
        files,
        original_bytes,
        stored_bytes,
    }
}

} // verus!

verus! {

/// Why files cannot be collected for a backup.
#[derive(Debug, Clone)]
pub enum BackupCollectError {
    /// Two collected files would share an archive path.
    DuplicateArchivePath(String),
    /// The selection holds no file to back up.
    NothingSelected,
}

impl BackupCollectError {
    /// The error's message.
    pub fn message(&self) -> (r: String)
        ensures
            r@ == match self {
                BackupCollectError::DuplicateArchivePath(p) => "duplicate archive entry path: "@ + p@,
                BackupCollectError::NothingSelected => "No files are selected for backup."@,
            },
    {
        match self {
            BackupCollectError::DuplicateArchivePath(p) => crate::archive::concat_str("duplicate archive entry path: ", p.as_str()),
            BackupCollectError::NothingSelected => "No files are selected for backup.".to_string(),
        }
    }
}

pub open spec fn pending_view(p: PendingFile) -> (Seq<char>, Seq<char>, Seq<char>) {
    (p.source_path@, p.archive_path@, p.entry_kind@)
}

/// Some collected file already has this archive path, ignoring ASCII case.
pub open spec fn archive_path_taken(files: Seq<(Seq<char>, Seq<char>, Seq<char>)>, archive_path: Seq<char>) -> bool {
    exists|j: int| 0 <= j < files.len() && crate::text::lower(#[trigger] files[j].1) == crate::text::lower(archive_path)
}

/// What collecting one file does.
pub enum CollectOutcome {
    /// The source was collected before (compared in Unicode lowercase): nothing changes.
    AlreadySeen,
    /// Another file already has the archive path: the backup stops.
    Duplicate,
    /// The file is collected.
    Added,
}

pub open spec fn collect_outcome(
    files: Seq<(Seq<char>, Seq<char>, Seq<char>)>,
    sources: Seq<Seq<char>>,
    source_path: Seq<char>,
    archive_path: Seq<char>,
) -> CollectOutcome {
    if sources.contains(crate::text::unicode_lowercase(source_path)) {
        CollectOutcome::AlreadySeen
    } else if archive_path_taken(files, archive_path) {
        CollectOutcome::Duplicate
    } else {
        CollectOutcome::Added
    }
}

/// The archive path of a source that is a single file: its file name (or `file`),
/// sanitized, under the archive root.
pub open spec fn single_file_archive_path(source_root: Seq<char>, archive_root: Seq<char>) -> Seq<char> {
    archive_root + "/"@ + spec_sanitize_segment(
        match crate::winpath::file_name(source_root) {
            Some(n) => n,
            None => "file"@,
        },
    )
}

/// The archive path of a file found under a source folder: its path relative to the
/// folder, sanitized, under the archive root.
pub open spec fn walked_file_archive_path(archive_root: Seq<char>, relative: Seq<Seq<char>>) -> Seq<char> {
    archive_root + "/"@ + crate::archive::spec_sanitize_segments(relative)
}

/// The files collected for a backup so far.
pub struct PendingCollector {
    pending: Vec<PendingFile>,
    seen_sources: Vec<String>,
    archive_keys: Vec<String>,
}

impl PendingCollector {
    /// The keys beside the collected files are their archive paths in ASCII lowercase,
    /// and no two collected files share one. The fields are private, so only this
    /// type's methods keep it.
    pub closed spec fn wf(self) -> bool {
        &&& self.archive_keys@.len() == self.pending@.len()
        &&& forall|j: int| 0 <= j < self.pending@.len() ==> #[trigger] self.archive_keys@[j]@ == crate::text::lower(self.pending@[j].archive_path@)
        &&& forall|i: int, j: int| 0 <= i < j < self.pending@.len() ==> crate::text::lower(#[trigger] self.pending@[i].archive_path@)
            != crate::text::lower(#[trigger] self.pending@[j].archive_path@)
    }

    /// The collected files as (source path, archive path, entry kind), in order.
    pub closed spec fn files(self) -> Seq<(Seq<char>, Seq<char>, Seq<char>)> {
        self.pending@.map_values(|p: PendingFile| pending_view(p))
    }

    /// The keys of the sources seen so far.
    pub closed spec fn sources(self) -> Seq<Seq<char>> {
        key_views(self.seen_sources@)
    }

    pub fn new() -> (c: Self)
        ensures
            c.wf(),
            c.files() == Seq::<(Seq<char>, Seq<char>, Seq<char>)>::empty(),
            c.sources() == Seq::<Seq<char>>::empty(),
    {
        let c = PendingCollector { pending: Vec::new(), seen_sources: Vec::new(), archive_keys: Vec::new() };
        assert(c.files() =~= Seq::<(Seq<char>, Seq<char>, Seq<char>)>::empty());
        assert(c.sources() =~= Seq::<Seq<char>>::empty());
        c
    }

    fn add_pending(&mut self, source_path: &str, archive_path: String, entry_kind: &str) -> (r: Result<(), BackupCollectError>)
        requires
            old(self).wf(),
        ensures
            final(self).wf(),
            match collect_outcome(old(self).files(), old(self).sources(), source_path@, archive_path@) {
                CollectOutcome::AlreadySeen => r is Ok && final(self).files() == old(self).files() && final(self).sources()
                    == old(self).sources(),
                CollectOutcome::Duplicate => r matches Err(BackupCollectError::DuplicateArchivePath(p)) && p@ == archive_path@
                    && final(self).files() == old(self).files(),
                CollectOutcome::Added => r is Ok && final(self).files() == old(self).files().push(
                    (source_path@, archive_path@, entry_kind@),
                ) && final(self).sources() == old(self).sources().push(crate::text::unicode_lowercase(source_path@)),
            },
    {
        let ghost files = self.files();
        let source_key = path_key(source_path);
        if strings_contain(self.seen_sources.as_slice(), source_key.as_str()) {
            return Ok(());
        }
        let ak = chars_of(archive_path.as_str());
        let key_chars = crate::text::lower_chars(ak.as_slice());
        let key = string_from(key_chars.as_slice());
        if strings_contain(self.archive_keys.as_slice(), key.as_str()) {
            proof {
                let j = choose|j: int| 0 <= j < key_views(self.archive_keys@).len() && key_views(self.archive_keys@)[j] == key@;
                assert(self.archive_keys@[j]@ == key@);
                assert(files[j].1 == self.pending@[j].archive_path@);
                assert(archive_path_taken(files, archive_path@));
            }
            return Err(BackupCollectError::DuplicateArchivePath(archive_path));
        }
        proof {
            if archive_path_taken(files, archive_path@) {
                let j = choose|j: int| 0 <= j < files.len() && crate::text::lower(#[trigger] files[j].1) == crate::text::lower(archive_path@);
                assert(files[j].1 == self.pending@[j].archive_path@);
                assert(key_views(self.archive_keys@)[j] == self.archive_keys@[j]@);
                assert(false);
            }
            assert forall|j: int| 0 <= j < self.pending@.len() implies crate::text::lower(self.pending@[j].archive_path@)
                != crate::text::lower(archive_path@) by {
                assert(files[j].1 == self.pending@[j].archive_path@);
            }
        }
        let ghost old_sources = self.seen_sources@;
        let ghost old_pending = self.pending@;
        self.seen_sources.push(source_key);
        self.pending.push(PendingFile { source_path: source_path.to_string(), archive_path, entry_kind: entry_kind.to_string() });
        self.archive_keys.push(key);
        assert(key_views(self.seen_sources@) =~= key_views(old_sources).push(crate::text::unicode_lowercase(source_path@)));
        assert(self.files() =~= files.push((source_path@, self.pending@.last().archive_path@, entry_kind@)));
        assert forall|i: int, j: int| 0 <= i < j < self.pending@.len() implies crate::text::lower(
            #[trigger] self.pending@[i].archive_path@,
        ) != crate::text::lower(#[trigger] self.pending@[j].archive_path@) by {
            if j < old_pending.len() {
                assert(self.pending@[i] == old_pending[i]);
                assert(self.pending@[j] == old_pending[j]);
            }
        }
        Ok(())
    }

    /// Collects a source that is a single file.
    pub fn add_single_file(&mut self, source_root: &str, archive_root: &str, entry_kind: &str) -> (r: Result<(), BackupCollectError>)
        requires
            old(self).wf(),
        ensures
            final(self).wf(),
            match collect_outcome(old(self).files(), old(self).sources(), source_root@, single_file_archive_path(source_root@, archive_root@)) {
                CollectOutcome::AlreadySeen => r is Ok && final(self).files() == old(self).files() && final(self).sources()
                    == old(self).sources(),
                CollectOutcome::Duplicate => r matches Err(BackupCollectError::DuplicateArchivePath(p)) && p@
                    == single_file_archive_path(source_root@, archive_root@),
                CollectOutcome::Added => r is Ok && final(self).files() == old(self).files().push(
                    (source_root@, single_file_archive_path(source_root@, archive_root@), entry_kind@),
                ) && final(self).sources() == old(self).sources().push(crate::text::unicode_lowercase(source_root@)),
            },
    {
        let p = chars_of(source_root);
        let name = match crate::winpath::file_name_exec(p.as_slice()) {
            Some(n) => string_from(n.as_slice()),
            None => "file".to_string(),
        };
        let mut v: Vec<char> = Vec::new();
        extend_str(&mut v, archive_root);
        extend_str(&mut v, "/");
        extend_str(&mut v, sanitize_segment(name.as_str()).as_str());
        let archive_path = string_from(v.as_slice());
        self.add_pending(source_root, archive_path, entry_kind)
    }

    /// Handles one entry of the walk of a source folder: entries left out of every walk
    /// are skipped, and each file is collected under its sanitized relative path.
    pub fn add_walk_entry(&mut self, source_root: &str, archive_root: &str, entry_kind: &str, entry: &crate::walk::WalkEntry) -> (r: Result<crate::walk::WalkAction, BackupCollectError>)
        requires
            old(self).wf(),
        ensures
            final(self).wf(),
            entry.depth > 0 && crate::plan::spec_is_known_noise(entry.path@) ==> r == Ok::<crate::walk::WalkAction, BackupCollectError>(
                crate::walk::skip_action(entry.is_dir),
            ) && final(self).files() == old(self).files() && final(self).sources() == old(self).sources(),
            !(entry.depth > 0 && crate::plan::spec_is_known_noise(entry.path@)) ==> match crate::walk::relative_segments(source_root@, entry.path@) {
                Some(rel) if entry.is_file => {
                    let ap = walked_file_archive_path(archive_root@, rel);
                    match collect_outcome(old(self).files(), old(self).sources(), entry.path@, ap) {
                        CollectOutcome::AlreadySeen => r == Ok::<crate::walk::WalkAction, BackupCollectError>(crate::walk::WalkAction::Continue)
                            && final(self).files() == old(self).files() && final(self).sources() == old(self).sources(),
                        CollectOutcome::Duplicate => r matches Err(BackupCollectError::DuplicateArchivePath(p)) && p@ == ap,
                        CollectOutcome::Added => r == Ok::<crate::walk::WalkAction, BackupCollectError>(crate::walk::WalkAction::Continue)
                            && final(self).files() == old(self).files().push((entry.path@, ap, entry_kind@))
                            && final(self).sources() == old(self).sources().push(crate::text::unicode_lowercase(entry.path@)),
                    }
                },
                _ => r == Ok::<crate::walk::WalkAction, BackupCollectError>(crate::walk::WalkAction::Continue) && final(self).files()
                    == old(self).files() && final(self).sources() == old(self).sources(),
            },
    {
        if entry.depth > 0 && crate::plan::should_exclude_path(entry.path.as_str()) {
            return Ok(
                if entry.is_dir {
                    crate::walk::WalkAction::SkipDir
                } else {
                    crate::walk::WalkAction::Continue
                },
            );
        }
        if !entry.is_file {
            return Ok(crate::walk::WalkAction::Continue);
        }
        let rel = match crate::walk::relative_segments_exec(source_root, entry.path.as_str()) {
            Some(rel) => rel,
            None => return Ok(crate::walk::WalkAction::Continue),
        };
        let rel_string = crate::archive::sanitize_segments(rel.as_slice());
        let mut v: Vec<char> = Vec::new();
        extend_str(&mut v, archive_root);
        extend_str(&mut v, "/");
        extend_str(&mut v, rel_string.as_str());
        let archive_path = string_from(v.as_slice());
        match self.add_pending(entry.path.as_str(), archive_path, entry_kind) {
            Ok(()) => Ok(crate::walk::WalkAction::Continue),
            Err(e) => Err(e),
        }
    }

    /// The collected files, in order.
    pub fn into_pending(self) -> (r: Vec<PendingFile>)
        ensures
            r@.map_values(|p: PendingFile| pending_view(p)) == self.files(),
    {
        self.pending
    }

    /// The collected files, in order, where there are any; a backup of nothing is
    /// refused.
    pub fn into_backup_files(self) -> (r: Result<Vec<PendingFile>, BackupCollectError>)
        ensures
            self.files().len() == 0 <==> r matches Err(BackupCollectError::NothingSelected),
            r matches Ok(v) ==> v@.map_values(|p: PendingFile| pending_view(p)) == self.files(),
            r is Ok || r matches Err(BackupCollectError::NothingSelected),
    {
        if self.pending.len() == 0 {
            Err(BackupCollectError::NothingSelected)
        } else {
            Ok(self.pending)
        }
    }
}

/// An archive root that stays restorable when components are added under it: at least
/// two characters, the first not a separator and the second not `:`, at least one
/// component, and every component plain.
pub open spec fn sound_archive_root(p: Seq<char>) -> bool {
    &&& p.len() >= 2
    &&& !crate::winpath::is_sep(p[0])
    &&& p[1] != ':'
    &&& crate::winpath::segments(p).len() > 0
    &&& forall|j: int| 0 <= j < crate::winpath::segments(p).len() ==> crate::archive::plain(#[trigger] crate::winpath::segments(p)[j])
}

/// A path that a restore places under its destination: not anchored, no `..`
/// component, no component that begins with a drive, and at least one component.
pub open spec fn restorable_archive_path(p: Seq<char>) -> bool {
    &&& !crate::archive::escapes_root(p)
    &&& crate::archive::no_drive_components(p)
    &&& crate::winpath::segments(p).len() > 0
}

proof fn lemma_no_dotdot(ss: Seq<Seq<char>>)
    requires
        forall|j: int| 0 <= j < ss.len() ==> crate::archive::plain(#[trigger] ss[j]),
    ensures
        !ss.contains(seq!['.', '.']),
{
    if ss.contains(seq!['.', '.']) {
        let j = choose|j: int| 0 <= j < ss.len() && ss[j] == seq!['.', '.'];
        assert(crate::archive::plain(ss[j]));
    }
}

/// Adding, under a sound root, a tail whose components are plain gives a restorable path.
proof fn lemma_extend_sound_root(root: Seq<char>, tail: Seq<char>)
    requires
        sound_archive_root(root),
        forall|j: int| 0 <= j < crate::winpath::segments(tail).len() ==> crate::archive::plain(#[trigger] crate::winpath::segments(tail)[j]),
    ensures
        restorable_archive_path(root + "/"@ + tail),
{
    reveal_strlit("/");
    let p = root + "/"@ + tail;
    assert(p =~= root + seq!['/'] + tail);
    crate::winpath::lemma_segments_split(root, '/', tail);
    let sp = crate::winpath::segments(p);
    let sr = crate::winpath::segments(root);
    let st = crate::winpath::segments(tail);
    assert(sp == sr + st);
    assert forall|j: int| 0 <= j < sp.len() implies crate::archive::plain(#[trigger] sp[j]) by {
        if j < sr.len() {
            assert(sp[j] == sr[j]);
        } else {
            assert(sp[j] == st[j - sr.len()]);
        }
    }
    lemma_no_dotdot(sp);
    assert(p[0] == root[0] && p[1] == root[1]);
}

/// A word without separators that is kept, put in front of a path with a separator:
/// its components are the word's, then the path's.
proof fn lemma_word_then(word: Seq<char>, rest: Seq<char>)
    requires
        word.len() >= 2,
        forall|j: int| 0 <= j < word.len() ==> !crate::winpath::is_sep(#[trigger] word[j]),
        word[1] != ':',
        word != seq!['.', '.'],
        forall|j: int| 0 <= j < crate::winpath::segments(rest).len() ==> crate::archive::plain(#[trigger] crate::winpath::segments(rest)[j]),
    ensures
        sound_archive_root(word + seq!['/'] + rest),
{
    let p = word + seq!['/'] + rest;
    crate::winpath::lemma_segments_split(word, '/', rest);
    crate::winpath::lemma_segments_sep_free(word);
    assert(crate::winpath::kept(word)) by {
        if word == seq!['.'] {
            assert(word.len() == 1);
        }
    }
    let sp = crate::winpath::segments(p);
    let sr = crate::winpath::segments(rest);
    assert(sp == seq![word] + sr);
    assert forall|j: int| 0 <= j < sp.len() implies crate::archive::plain(#[trigger] sp[j]) by {
        if j > 0 {
            assert(sp[j] == sr[j - 1]);
        }
    }
    assert(p[0] == word[0] && p[1] == word[1]);
}

proof fn lemma_user_root_sound(category: Seq<char>, label: Seq<char>)
    ensures
        sound_archive_root(spec_user_archive_root(category, label)),
{
    reveal_strlit("user/");
    reveal_strlit("/");
    let a = spec_sanitize_segment(category);
    let b = spec_sanitize_segment(label);
    let word = seq!['u', 's', 'e', 'r'];
    let rest = a + seq!['/'] + b;
    assert(spec_user_archive_root(category, label) =~= word + seq!['/'] + rest);
    crate::archive::lemma_sanitized_name_components(category);
    crate::archive::lemma_sanitized_name_components(label);
    crate::winpath::lemma_segments_split(a, '/', b);
    let sr = crate::winpath::segments(rest);
    assert forall|j: int| 0 <= j < sr.len() implies crate::archive::plain(#[trigger] sr[j]) by {
        let sa = crate::winpath::segments(a);
        if j < sa.len() {
            assert(sr[j] == sa[j]);
        } else {
            assert(sr[j] == crate::winpath::segments(b)[j - sa.len()]);
        }
    }
    lemma_word_then(word, rest);
}

proof fn lemma_portable_root_sound(display_name: Seq<char>)
    ensures
        sound_archive_root(spec_portable_archive_root(display_name)),
{
    reveal_strlit("portable/");
    let a = spec_sanitize_segment(display_name);
    let word = seq!['p', 'o', 'r', 't', 'a', 'b', 'l', 'e'];
    assert(spec_portable_archive_root(display_name) =~= word + seq!['/'] + a);
    crate::archive::lemma_sanitized_name_components(display_name);
    lemma_word_then(word, a);
}

proof fn lemma_installed_root_sound(display_name: Seq<char>, source: Seq<char>, uninstall_key: Seq<char>)
    ensures
        sound_archive_root(spec_installed_app_backup_root(display_name, source, uninstall_key)),
{
    reveal_strlit("installed/");
    reveal_strlit("__");
    let a = spec_sanitize_segment(display_name);
    let b = spec_sanitize_segment(source);
    let c = spec_sanitize_segment(uninstall_key);
    let w = a + seq!['_', '_'] + b + seq!['_', '_'] + c;
    let word = seq!['i', 'n', 's', 't', 'a', 'l', 'l', 'e', 'd'];
    assert(spec_installed_app_backup_root(display_name, source, uninstall_key) =~= word + seq!['/'] + w);
    crate::archive::lemma_sanitized_shape(display_name);
    crate::archive::lemma_sanitized_shape(source);
    crate::archive::lemma_sanitized_shape(uninstall_key);
    assert forall|j: int| 0 <= j < w.len() implies !crate::winpath::is_sep(#[trigger] w[j]) && w[j] != ':' by {
        if j < a.len() {
            assert(w[j] == a[j]);
        } else if j < a.len() + 2 {
            assert(w[j] == '_');
        } else if j < a.len() + 2 + b.len() {
            assert(w[j] == b[j - a.len() - 2]);
        } else if j < a.len() + 4 + b.len() {
            assert(w[j] == '_');
        } else {
            assert(w[j] == c[j - a.len() - 4 - b.len()]);
        }
    }
    crate::winpath::lemma_segments_sep_free(w);
    assert(w.len() >= 4);
    assert(crate::winpath::kept(w)) by {
        if w == seq!['.'] {
            assert(w.len() == 1);
        }
    }
    assert(w != seq!['.', '.']) by {
        if w == seq!['.', '.'] {
            assert(w.len() == 2);
        }
    }
    let sw = crate::winpath::segments(w);
    assert(sw == seq![w]);
    assert forall|j: int| 0 <= j < sw.len() implies crate::archive::plain(#[trigger] sw[j]) by {
        assert(sw[j] == w);
    }
    lemma_word_then(word, w);
}

proof fn lemma_user_sources_sound(roots: Seq<UserDataRoot>, sel: Seq<Seq<char>>)
    ensures
        forall|k: int| 0 <= k < user_sources(roots, sel).len() ==> sound_archive_root((#[trigger] user_sources(roots, sel)[k]).1),
    decreases roots.len(),
{
    if roots.len() > 0 {
        lemma_user_sources_sound(roots.drop_last(), sel);
        let r = roots.last();
        lemma_user_root_sound(r.category@, r.label@);
        let rest = user_sources(roots.drop_last(), sel);
        let cur = user_sources(roots, sel);
        assert forall|k: int| 0 <= k < cur.len() implies sound_archive_root((#[trigger] cur[k]).1) by {
            if k < rest.len() {
                assert(cur[k] == rest[k]);
            }
        }
    }
}

proof fn lemma_portable_sources_sound(cands: Seq<PortableAppCandidate>, sel: Seq<Seq<char>>)
    ensures
        forall|k: int| 0 <= k < portable_sources(cands, sel).len() ==> sound_archive_root((#[trigger] portable_sources(cands, sel)[k]).1),
    decreases cands.len(),
{
    if cands.len() > 0 {
        lemma_portable_sources_sound(cands.drop_last(), sel);
        lemma_portable_root_sound(cands.last().display_name@);
        let rest = portable_sources(cands.drop_last(), sel);
        let cur = portable_sources(cands, sel);
        assert forall|k: int| 0 <= k < cur.len() implies sound_archive_root((#[trigger] cur[k]).1) by {
            if k < rest.len() {
                assert(cur[k] == rest[k]);
            }
        }
    }
}

proof fn lemma_installed_sources_sound(apps: Seq<InstalledAppRecord>, sel: Seq<Seq<char>>)
    ensures
        forall|k: int| 0 <= k < installed_sources(apps, sel).len() ==> sound_archive_root((#[trigger] installed_sources(apps, sel)[k]).1),
    decreases apps.len(),
{
    if apps.len() > 0 {
        lemma_installed_sources_sound(apps.drop_last(), sel);
        let a = apps.last();
        lemma_installed_root_sound(a.display_name@, a.source@, a.uninstall_key@);
        let rest = installed_sources(apps.drop_last(), sel);
        let cur = installed_sources(apps, sel);
        assert forall|k: int| 0 <= k < cur.len() implies sound_archive_root((#[trigger] cur[k]).1) by {
            if k < rest.len() {
                assert(cur[k] == rest[k]);
            }
        }
    }
}

/// Whatever a backup of a selection collects can be restored: under the archive root
/// of any of its sources, a file found by walking the source, or the source itself
/// where it is a single file, gets an archive path that is not anchored, has no `..`
/// component and no component that begins with a drive, and names at least one
/// component, so a restore places it under the destination.
pub proof fn law_backed_up_paths_restorable(
    preview: BackupPreview,
    sel_users: Seq<Seq<char>>,
    sel_portable: Seq<Seq<char>>,
    sel_installed: Seq<Seq<char>>,
    k: int,
    source_path: Seq<char>,
    relative: Seq<Seq<char>>,
)
    requires
        0 <= k < spec_backup_sources(preview, sel_users, sel_portable, sel_installed).len(),
    ensures
        restorable_archive_path(walked_file_archive_path(spec_backup_sources(preview, sel_users, sel_portable, sel_installed)[k].1, relative)),
        restorable_archive_path(single_file_archive_path(source_path, spec_backup_sources(preview, sel_users, sel_portable, sel_installed)[k].1)),
{
    let us = user_sources(preview.user_data_roots@, sel_users);
    let ps = portable_sources(preview.portable_candidates@, sel_portable);
    let is = installed_sources(preview.installed_apps@, sel_installed);
    let all = spec_backup_sources(preview, sel_users, sel_portable, sel_installed);
    lemma_user_sources_sound(preview.user_data_roots@, sel_users);
    lemma_portable_sources_sound(preview.portable_candidates@, sel_portable);
    lemma_installed_sources_sound(preview.installed_apps@, sel_installed);
    assert(all == us + ps + is);
    if k < us.len() {
        assert(all[k] == us[k]);
    } else if k < us.len() + ps.len() {
        assert(all[k] == ps[k - us.len()]);
    } else {
        assert(all[k] == is[k - us.len() - ps.len()]);
    }
    let root = all[k].1;
    crate::archive::lemma_sanitized_relative_components(relative);
    lemma_extend_sound_root(root, crate::archive::spec_sanitize_segments(relative));
    let name = match crate::winpath::file_name(source_path) {
        Some(n) => n,
        None => "file"@,
    };
    crate::archive::lemma_sanitized_name_components(name);
    lemma_extend_sound_root(root, spec_sanitize_segment(name));
}

/// Collected files never share an archive path, even ignoring ASCII case: whatever
/// sequence of additions built a collector, its archive paths are pairwise distinct.
pub proof fn law_collected_archive_paths_distinct(c: PendingCollector, i: int, j: int)
    requires
        c.wf(),
        0 <= i < j < c.files().len(),
    ensures
        crate::text::lower(c.files()[i].1) != crate::text::lower(c.files()[j].1),
{
    assert(c.files()[i].1 == c.pending@[i].archive_path@);
    assert(c.files()[j].1 == c.pending@[j].archive_path@);
}

} // verus!

verus! {

/// Why a file could not be added to an archive.
#[derive(Debug, Clone, Copy, PartialEq, Eq, Structural)]
pub enum BackupWriteError {
    /// The DEFLATE encoder failed; `add_file` states that it does not.
    Encode,
    /// An offset or a byte total would not fit in 64 bits.
    Overflow,
}

pub open spec fn sum_original(files: Seq<ArchivedFileEntry>) -> nat
    decreases files.len(),
{
    if files.len() == 0 {
        0
    } else {
        sum_original(files.drop_last()) + files.last().original_size as nat
    }
}

pub open spec fn sum_stored(files: Seq<ArchivedFileEntry>) -> nat
    decreases files.len(),
{
    if files.len() == 0 {
        0
    } else {
        sum_stored(files.drop_last()) + files.last().stored_size as nat
    }
}

/// The bytes an entry's stream occupies in `bytes`.
pub open spec fn entry_stream(bytes: Seq<u8>, e: ArchivedFileEntry) -> Seq<u8> {
    bytes.subrange(e.offset as int, e.offset + e.stored_size)
}

/// An archive being written: the header and the compressed files so far, with the
/// entries that describe them.
pub struct BackupArchiveWriter {
    offset: u64,
    files: Vec<ArchivedFileEntry>,
    original_bytes: u64,
    stored_bytes: u64,
    written: Ghost<Seq<u8>>,
    contents: Ghost<Seq<Seq<u8>>>,
}

impl BackupArchiveWriter {
    /// The bytes written begin with the header; each entry's stream lies inside them
    /// and checks back to the file it was made from; the totals are the sums of the
    /// entries' sizes. The fields are private, so only this type's methods keep it.
    pub closed spec fn wf(self) -> bool {
        &&& self.written@.len() == self.offset
        &&& self.written@.len() >= 4
        &&& self.written@.take(4) == crate::archive::header_magic()
        &&& self.contents@.len() == self.files@.len()
        &&& forall|i: int| 0 <= i < self.files@.len() ==> {
            &&& (#[trigger] self.files@[i]).offset + self.files@[i].stored_size <= self.offset
            &&& crate::archive::spec_check_entry(self.files@[i], entry_stream(self.written@, self.files@[i])) == Ok::<
                Seq<u8>,
                crate::archive::EntryCheckError,
            >(self.contents@[i])
        }
        &&& self.original_bytes == sum_original(self.files@)
        &&& self.stored_bytes == sum_stored(self.files@)
    }

    /// The bytes written so far.
    pub closed spec fn bytes(self) -> Seq<u8> {
        self.written@
    }

    /// The entries written so far.
    pub closed spec fn entries(self) -> Seq<ArchivedFileEntry> {
        self.files@
    }

    /// The files whose bytes were written, in order.
    pub closed spec fn contents(self) -> Seq<Seq<u8>> {
        self.contents@
    }

    pub closed spec fn original_total(self) -> u64 {
        self.original_bytes
    }

    pub closed spec fn stored_total(self) -> u64 {
        self.stored_bytes
    }

    /// Starts an archive: gives the writer and the header bytes to write first.
    pub fn start() -> (r: (Self, Vec<u8>))
        ensures
            r.0.wf(),
            r.1@ == crate::archive::header_magic(),
            r.0.bytes() == crate::archive::header_magic(),
            r.0.entries() == Seq::<ArchivedFileEntry>::empty(),
            r.0.contents() == Seq::<Seq<u8>>::empty(),
    {
        let header = crate::archive::header_magic_bytes();
        let w = BackupArchiveWriter {
            offset: 4,
            files: Vec::new(),
            original_bytes: 0,
            stored_bytes: 0,
            written: Ghost(header@),
            contents: Ghost(Seq::empty()),
        };
        assert(w.written@.take(4) =~= crate::archive::header_magic());
        (w, header)
    }

    /// Where the next bytes go.
    pub fn next_offset(&self) -> (r: u64)
        requires
            self.wf(),
        ensures
            r == self.bytes().len(),
    {
        self.offset
    }

    /// The total size of the files written.
    pub fn original_bytes(&self) -> (r: u64)
        ensures
            r == self.original_total(),
    {
        self.original_bytes
    }

    /// The total size of their compressed streams.
    pub fn stored_bytes(&self) -> (r: u64)
        ensures
            r == self.stored_total(),
    {
        self.stored_bytes
    }

    /// Whether adding a stream of `stored_len` bytes for a file of `data_len` bytes
    /// would take the archive's length or one of its byte totals past 64 bits.
    pub open spec fn would_overflow(self, stored_len: int, data_len: int) -> bool {
        ||| self.bytes().len() + stored_len > u64::MAX
        ||| self.stored_total() + stored_len > u64::MAX
        ||| self.original_total() + data_len > u64::MAX
    }

    /// Compresses a file's bytes and adds its entry; gives the stream to write next.
    /// It refuses, with `Overflow`, exactly where the compressed stream would not fit
    /// the 64-bit offsets and totals.
    pub fn add_file(&mut self, pending: &PendingFile, data: &[u8]) -> (r: Result<Vec<u8>, BackupWriteError>)
        requires
            old(self).wf(),
        ensures
            final(self).wf(),
            r matches Err(BackupWriteError::Overflow) ==> old(self).would_overflow(
                crate::codec::spec_deflate(data@).len() as int,
                data@.len() as int,
            ),
            old(self).would_overflow(crate::codec::spec_deflate(data@).len() as int, data@.len() as int) ==> r is Err,
            !old(self).would_overflow(crate::codec::spec_deflate(data@).len() as int, data@.len() as int) ==> r is Ok,
            !(r matches Err(BackupWriteError::Encode)),
            match r {
                Ok(stored) => {
                    &&& stored@ == crate::codec::spec_deflate(data@)
                    &&& final(self).bytes() == old(self).bytes() + stored@
                    &&& final(self).entries() == old(self).entries().push(
                        crate::archive::spec_encoded_entry(*pending, data@, old(self).bytes().len() as u64, stored@),
                    )
                    &&& final(self).contents() == old(self).contents().push(data@)
                },
                Err(_) => final(self).bytes() == old(self).bytes() && final(self).entries() == old(self).entries()
                    && final(self).contents() == old(self).contents(),
            },
    {
        let (entry, stored) = match crate::archive::encode_entry(pending, data, self.offset) {
            Some(x) => x,
            None => return Err(BackupWriteError::Encode),
        };
        let len = stored.len() as u64;
        if len > u64::MAX - self.offset || len > u64::MAX - self.stored_bytes || entry.original_size > u64::MAX
            - self.original_bytes {
            return Err(BackupWriteError::Overflow);
        }
        let ghost old_written = self.written@;
        let ghost old_files = self.files@;
        let ghost old_contents = self.contents@;
        proof {
            assert(data@.len() == data.len());
            assert(data.len() <= u64::MAX);
            crate::archive::law_entry_round_trip(*pending, data@, self.offset, stored@);
            assert(entry_stream(old_written + stored@, entry) =~= stored@);
            assert forall|i: int| 0 <= i < old_files.len() implies entry_stream(old_written + stored@, old_files[i])
                == entry_stream(old_written, old_files[i]) by {
                assert(entry_stream(old_written + stored@, old_files[i]) =~= entry_stream(old_written, old_files[i]));
            }
        }
        self.offset = self.offset + len;
        self.stored_bytes = self.stored_bytes + len;
        self.original_bytes = self.original_bytes + entry.original_size;
        self.files.push(entry);
        self.written = Ghost(old_written + stored@);
        self.contents = Ghost(old_contents.push(data@));
        proof {
            assert(self.files@.drop_last() == old_files);
            assert(self.written@.take(4) =~= old_written.take(4));
            assert forall|i: int| 0 <= i < self.files@.len() implies {
                &&& (#[trigger] self.files@[i]).offset + self.files@[i].stored_size <= self.offset
                &&& crate::archive::spec_check_entry(self.files@[i], entry_stream(self.written@, self.files@[i])) == Ok::<
                    Seq<u8>,
                    crate::archive::EntryCheckError,
                >(self.contents@[i])
            } by {
                if i < old_files.len() {
                    assert(self.files@[i] == old_files[i]);
                    assert(self.contents@[i] == old_contents[i]);
                }
            }
        }
        Ok(stored)
    }

    /// The entries written, in order.
    pub fn into_files(self) -> (r: Vec<ArchivedFileEntry>)
        ensures
            r@ == self.entries(),
    {
        self.files
    }
}

/// What a read gives back of a write: in an archive made of the writer's bytes, a
/// manifest and the footer written for it, the footer locates the manifest, and
/// every entry's stream checks back to the file it was made from.
pub proof fn law_archive_round_trip(w: BackupArchiveWriter, manifest: Seq<u8>, i: int)
    requires
        w.wf(),
        w.bytes().len() + manifest.len() + crate::archive::FOOTER_LEN <= u64::MAX,
        0 <= i < w.entries().len(),
    ensures
        ({
            let a = w.bytes() + manifest + crate::archive::spec_footer(w.bytes().len() as u64, manifest.len() as u64);
            &&& crate::archive::spec_locate_manifest(a.len() as u64, a.take(4), a.skip(a.len() - 20)) == Ok::<
                crate::archive::ManifestLocation,
                crate::archive::ArchiveFormatError,
            >(crate::archive::ManifestLocation { offset: w.bytes().len() as u64, len: manifest.len() as u64 })
            &&& a.subrange(w.bytes().len() as int, (w.bytes().len() + manifest.len()) as int) == manifest
            &&& crate::archive::spec_check_entry(w.entries()[i], entry_stream(a, w.entries()[i])) == Ok::<
                Seq<u8>,
                crate::archive::EntryCheckError,
            >(w.contents()[i])
        }),
{
    let b = w.bytes();
    let f = crate::archive::spec_footer(b.len() as u64, manifest.len() as u64);
    let a = b + manifest + f;
    vstd::bytes::lemma_auto_spec_u64_to_from_le_bytes();
    assert(f.len() == 20);
    assert(a.take(4) =~= b.take(4));
    assert(a.skip(a.len() - 20) =~= f);
    crate::archive::law_footer_round_trip(a.len() as u64, b.len() as u64, manifest.len() as u64);
    assert(a.subrange(b.len() as int, (b.len() + manifest.len()) as int) =~= manifest);
    let e = w.entries()[i];
    assert(entry_stream(a, e) =~= entry_stream(b, e));
}

} // verus!

verus! {

/// The outcome of writing a backup.
#[derive(Debug, Clone)]
pub struct BackupResult {
    pub archive_path: String,
    pub file_count: usize,
    pub original_bytes: u64,
    pub stored_bytes: u64,
}

/// The backup output folder as checked before writing.
#[derive(Debug, Clone)]
pub struct BackupOutputPreflight {
    pub output_dir: String,
    pub exists: bool,
    pub is_directory: bool,
}

/// Why a backup cannot be written to an output folder.
#[derive(Debug, Clone)]
pub enum BackupOutputError {
    /// The output path is an existing file.
    ExistingFile(String),
    /// A parent of the output path is an existing file.
    Blocked(String),
    /// The output lies in a folder that is being backed up.
    Overlaps(String),
}

impl BackupOutputError {
    /// The error's message.
    pub fn message(&self) -> (r: String)
        ensures
            r@ == match self {
                BackupOutputError::ExistingFile(p) => "backup output path is an existing file: "@ + p@,
                BackupOutputError::Blocked(p) => "backup output path is blocked by existing file: "@ + p@,
                BackupOutputError::Overlaps(p) => "backup output path overlaps selected source directory: "@ + p@,
            },
    {
        match self {
            BackupOutputError::ExistingFile(p) => crate::archive::concat_str("backup output path is an existing file: ", p.as_str()),
            BackupOutputError::Blocked(p) => crate::archive::concat_str("backup output path is blocked by existing file: ", p.as_str()),
            BackupOutputError::Overlaps(p) => crate::archive::concat_str(
                "backup output path overlaps selected source directory: ",
                p.as_str(),
            ),
        }
    }
}

/// The source folders among the first `k` sources: those that are folders, each
/// path key once, in order.
pub open spec fn source_dirs_prefix(sources: Seq<Seq<char>>, is_dir: Seq<bool>, k: int) -> Seq<Seq<char>>
    decreases k,
{
    if k <= 0 {
        seq![]
    } else {
        let prev = source_dirs_prefix(sources, is_dir, k - 1);
        let s = sources[k - 1];
        if is_dir[k - 1] && !(exists|j: int| 0 <= j < prev.len() && spec_path_key(#[trigger] prev[j]) == spec_path_key(s)) {
            prev.push(s)
        } else {
            prev
        }
    }
}

/// The folders a backup of the given selections reads from, each once: the sources
/// of `backup_sources` that are folders, where `source_is_dir[i]` tells whether the
/// `i`-th source is one.
pub fn collect_selected_backup_source_dirs(
    preview: &BackupPreview,
    selected_user_roots: &[String],
    selected_portable_apps: &[String],
    selected_installed_app_dirs: &[String],
    source_is_dir: &[bool],
) -> (r: Vec<String>)
    requires
        source_is_dir.len() == spec_backup_sources(
            *preview,
            key_views(selected_user_roots@),
            key_views(selected_portable_apps@),
            key_views(selected_installed_app_dirs@),
        ).len(),
    ensures
        key_views(r@) == source_dirs_prefix(
            spec_backup_sources(
                *preview,
                key_views(selected_user_roots@),
                key_views(selected_portable_apps@),
                key_views(selected_installed_app_dirs@),
            ).map_values(|s: (Seq<char>, Seq<char>, Seq<char>)| s.0),
            source_is_dir@,
            source_is_dir.len() as int,
        ),
{
    let sources = backup_sources(preview, selected_user_roots, selected_portable_apps, selected_installed_app_dirs);
    let ghost roots = sources@.map_values(|s: BackupSource| source_view(s)).map_values(|s: (Seq<char>, Seq<char>, Seq<char>)| s.0);
    let mut dirs: Vec<String> = Vec::new();
    let mut keys: Vec<String> = Vec::new();
    let mut i: usize = 0;
    while i < sources.len()
        invariant
            i <= sources@.len() == source_is_dir.len(),
            roots == sources@.map_values(|s: BackupSource| source_view(s)).map_values(|s: (Seq<char>, Seq<char>, Seq<char>)| s.0),
            key_views(dirs@) == source_dirs_prefix(roots, source_is_dir@, i as int),
            keys@.len() == dirs@.len(),
            forall|j: int| 0 <= j < keys@.len() ==> #[trigger] keys@[j]@ == spec_path_key(dirs@[j]@),
        decreases sources@.len() - i,
    {
        let ghost prev = key_views(dirs@);
        assert(roots[i as int] == sources@[i as int].source_root@);
        if source_is_dir[i] {
            let key = path_key(sources[i].source_root.as_str());
            if strings_contain(keys.as_slice(), key.as_str()) {
                proof {
                    let j = choose|j: int| 0 <= j < key_views(keys@).len() && key_views(keys@)[j] == key@;
                    assert(keys@[j]@ == key@);
                    assert(prev[j] == dirs@[j]@);
                }
            } else {
                proof {
                    assert forall|j: int| 0 <= j < prev.len() implies spec_path_key(#[trigger] prev[j]) != spec_path_key(roots[i as int]) by {
                        assert(prev[j] == dirs@[j]@);
                        assert(key_views(keys@)[j] == keys@[j]@);
                    }
                }
                dirs.push(sources[i].source_root.clone());
                keys.push(key);
                assert(key_views(dirs@) =~= prev.push(roots[i as int]));
            }
        }
        i += 1;
    }
    dirs
}

/// Checks a backup output folder before writing: it must not be a file, no parent of
/// it may be a file (`blocker`, the nearest such parent), and it must not lie in a
/// folder being backed up (the first such folder is reported). `output_is_dir` is
/// `None` where the output path does not exist.
pub fn check_backup_output(output_dir: &str, output_is_dir: Option<bool>, blocker: Option<String>, source_dirs: &[String]) -> (r: Result<BackupOutputPreflight, BackupOutputError>)
    ensures
        output_is_dir == Some(false) ==> (r matches Err(BackupOutputError::ExistingFile(p)) && p@ == output_dir@),
        output_is_dir != Some(false) && blocker is Some ==> (r matches Err(BackupOutputError::Blocked(p)) && p@ == blocker.unwrap()@),
        output_is_dir != Some(false) && blocker is None ==> match r {
            Ok(pre) => pre.output_dir@ == output_dir@ && pre.exists == (output_is_dir is Some) && pre.is_directory == (
            output_is_dir == Some(true)) && forall|j: int| 0 <= j < source_dirs@.len() ==> !crate::winpath::path_starts_with(
                output_dir@,
                #[trigger] source_dirs@[j]@,
            ),
            Err(BackupOutputError::Overlaps(p)) => exists|j: int| 0 <= j < source_dirs@.len() && p@ == source_dirs@[j]@
                && crate::winpath::path_starts_with(output_dir@, source_dirs@[j]@) && forall|k: int| 0 <= k < j
                ==> !crate::winpath::path_starts_with(output_dir@, #[trigger] source_dirs@[k]@),
            _ => false,
        },
{
    if output_is_dir == Some(false) {
        return Err(BackupOutputError::ExistingFile(output_dir.to_string()));
    }
    match blocker {
        Some(b) => {
            return Err(BackupOutputError::Blocked(b));
        },
        None => {},
    }
    let out = chars_of(output_dir);
    let mut i: usize = 0;
    while i < source_dirs.len()
        invariant
            i <= source_dirs@.len(),
            out@ == output_dir@,
            output_is_dir != Some(false),
            blocker is None,
            forall|k: int| 0 <= k < i ==> !crate::winpath::path_starts_with(output_dir@, #[trigger] source_dirs@[k]@),
        decreases source_dirs@.len() - i,
    {
        let s = chars_of(source_dirs[i].as_str());
        if crate::winpath::path_eq_exec(out.as_slice(), s.as_slice()) || crate::winpath::path_starts_with_exec(
            out.as_slice(),
            s.as_slice(),
        ) {
            proof {
                if crate::winpath::path_eq(out@, s@) {
                    assert(crate::winpath::components(out@).take(crate::winpath::components(s@).len() as int)
                        =~= crate::winpath::components(s@));
                }
            }
            return Err(BackupOutputError::Overlaps(source_dirs[i].clone()));
        }
        i += 1;
    }
    Ok(BackupOutputPreflight { output_dir: output_dir.to_string(), exists: output_is_dir.is_some(), is_directory: output_is_dir == Some(true) })
}

/// The default backup output folder: `Desktop\WinRehome Backups` under the user's
/// profile, or `WinRehome Backups` under the current folder where there is no profile.
pub open spec fn spec_default_output_dir(profile: Option<Seq<char>>, current_dir: Seq<char>) -> Seq<char> {
    match profile {
        Some(p) => crate::winpath::join(crate::winpath::join(p, "Desktop"@), "WinRehome Backups"@),
        None => crate::winpath::join(current_dir, "WinRehome Backups"@),
    }
}

fn join_str(a: &str, b: &str) -> (r: String)
    ensures
        r@ == crate::winpath::join(a@, b@),
{
    let av = chars_of(a);
    let bv = chars_of(b);
    let j = crate::winpath::join_exec(av.as_slice(), bv.as_slice());
    string_from(j.as_slice())
}

pub fn default_output_dir(profile: Option<&str>, current_dir: &str) -> (r: String)
    ensures
        r@ == spec_default_output_dir(
            match profile {
                Some(p) => Some(p@),
                None => None,
            },
            current_dir@,
        ),
{
    match profile {
        Some(p) => {
            let d = join_str(p, "Desktop");
            join_str(d.as_str(), "WinRehome Backups")
        },
        None => join_str(current_dir, "WinRehome Backups"),
    }
}

/// The default restore folder for an archive: a folder named after the archive's file
/// stem (sanitized; `restored-archive` where it has none) under `Desktop\WinRehome
/// Restores` in the user's profile, or under `WinRehome Restores` in the current folder.
pub open spec fn spec_default_restore_dir(archive_path: Seq<char>, profile: Option<Seq<char>>, current_dir: Seq<char>) -> Seq<char> {
    let root = match profile {
        Some(p) => crate::winpath::join(crate::winpath::join(p, "Desktop"@), "WinRehome Restores"@),
        None => crate::winpath::join(current_dir, "WinRehome Restores"@),
    };
    let name = match crate::winpath::file_stem(archive_path) {
        Some(s) => s,
        None => "restored-archive"@,
    };
    crate::winpath::join(root, spec_sanitize_segment(name))
}

pub fn default_restore_dir(archive_path: &str, profile: Option<&str>, current_dir: &str) -> (r: String)
    ensures
        r@ == spec_default_restore_dir(
            archive_path@,
            match profile {
                Some(p) => Some(p@),
                None => None,
            },
            current_dir@,
        ),
{
    let root = match profile {
        Some(p) => {
            let d = join_str(p, "Desktop");
            join_str(d.as_str(), "WinRehome Restores")
        },
        None => join_str(current_dir, "WinRehome Restores"),
    };
    let ap = chars_of(archive_path);
    let name = match crate::plan::file_stem_exec(ap.as_slice()) {
        Some(s) => string_from(s.as_slice()),
        None => "restored-archive".to_string(),
    };
    let seg = sanitize_segment(name.as_str());
    join_str(root.as_str(), seg.as_str())
}

} // verus!
