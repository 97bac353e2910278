//! Personal data: which files and folders look worth migrating, what kind of data
//! they hold, how they are scored and labelled, and which candidates are kept.
use vstd::prelude::*;
use crate::names::{
    is_app_data_extension, is_app_data_extension_exec, is_archive_extension, is_archive_extension_exec,
    is_disk_image_extension, is_disk_image_extension_exec, is_document_extension, is_document_extension_exec,
    is_media_extension, is_media_extension_exec,
};
use crate::plan::{
    lower_name, spec_is_android_avd_marker_file_name, spec_is_android_sdk_component_directory_name,
    spec_is_executable_file, spec_is_generic_user_container_name, spec_is_known_noise,
    spec_is_probable_app_data_directory_name, spec_is_probable_app_data_file_name,
};
use crate::text::{chars_of, contains, ends_with, key_views, lower, lower_chars, string_from, strings_contain, trim, trim_chars};
use crate::walk::{WalkAction, WalkEntry, skip_action};
use crate::winpath::{extension, file_name, join, name_or_empty};

verus! {

/// What kind of personal data a file or folder holds.
#[derive(Debug, Clone, Copy, PartialEq, Eq, Structural)]
pub enum UserDataValueKind {
    Documents,
    Media,
    Archives,
    DiskImages,
    DeveloperData,
    AppData,
}

/// A path's extension in ASCII lowercase.
pub open spec fn lower_ext(path: Seq<char>) -> Option<Seq<char>> {
    match extension(path) {
        Some(e) => Some(lower(e)),
        None => None,
    }
}

/// The kind a file's name suggests: by its extension, or application data where its
/// name is typical of application data.
pub open spec fn kind_by_name(path: Seq<char>) -> Option<UserDataValueKind> {
    let ext = lower_ext(path);
    if ext matches Some(e) && is_document_extension(e) {
        Some(UserDataValueKind::Documents)
    } else if ext matches Some(e) && is_media_extension(e) {
        Some(UserDataValueKind::Media)
    } else if ext matches Some(e) && is_archive_extension(e) {
        Some(UserDataValueKind::Archives)
    } else if ext matches Some(e) && is_disk_image_extension(e) {
        Some(UserDataValueKind::DiskImages)
    } else if ext == Some("ipynb"@) {
        Some(UserDataValueKind::DeveloperData)
    } else if (ext matches Some(e) && is_app_data_extension(e)) || spec_is_probable_app_data_file_name(lower_name(path)) {
        Some(UserDataValueKind::AppData)
    } else {
        None
    }
}

/// The kind of a file: the kind its name suggests, where its length could be read and
/// it is not empty.
pub open spec fn spec_classify_user_data_file_kind(path: Seq<char>, len: Option<u64>) -> Option<UserDataValueKind> {
    match kind_by_name(path) {
        Some(k) => if len matches Some(n) && n > 0 {
            Some(k)
        } else {
            None
        },
        None => None,
    }
}

fn lower_ext_exec(p: &[char]) -> (r: Option<Vec<char>>)
    ensures
        match r {
            Some(v) => lower_ext(p@) == Some(v@),
            None => lower_ext(p@) is None,
        },
{
    match crate::plan::extension_exec(p) {
        Some(e) => Some(lower_chars(e.as_slice())),
        None => None,
    }
}

fn kind_by_name_exec(path: &str) -> (r: Option<UserDataValueKind>)
    ensures
        r == kind_by_name(path@),
{
    let p = chars_of(path);
    let ext = lower_ext_exec(p.as_slice());
    let (is_doc, is_media, is_arch, is_disk, is_nb, is_app) = match &ext {
        Some(e) => {
            let e = e.as_slice();
            (
                is_document_extension_exec(e),
                is_media_extension_exec(e),
                is_archive_extension_exec(e),
                is_disk_image_extension_exec(e),
                crate::text::chars_eq_str(e, "ipynb"),
                is_app_data_extension_exec(e),
            )
        },
        None => (false, false, false, false, false, false),
    };
    if is_doc {
        Some(UserDataValueKind::Documents)
    } else if is_media {
        Some(UserDataValueKind::Media)
    } else if is_arch {
        Some(UserDataValueKind::Archives)
    } else if is_disk {
        Some(UserDataValueKind::DiskImages)
    } else if is_nb {
        Some(UserDataValueKind::DeveloperData)
    } else {
        let name = crate::winpath::name_or_empty_exec(p.as_slice());
        let lname = lower_chars(name.as_slice());
        let lname_s = string_from(lname.as_slice());
        if is_app || crate::plan::is_probable_app_data_file_name(lname_s.as_str()) {
            Some(UserDataValueKind::AppData)
        } else {
            None
        }
    }
}

/// The kind of personal data a file holds, from its name, where it is not empty
/// (`len` is its length, `None` where it could not be read).
pub fn classify_user_data_file_kind(path: &str, len: Option<u64>) -> (r: Option<UserDataValueKind>)
    ensures
        r == spec_classify_user_data_file_kind(path@, len),
{
    match kind_by_name_exec(path) {
        Some(k) => match len {
            Some(n) => if n > 0 {
                Some(k)
            } else {
                None
            },
            None => None,
        },
        None => None,
    }
}

pub open spec fn spec_user_data_category_for_kind(kind: UserDataValueKind) -> Seq<char> {
    match kind {
        UserDataValueKind::Documents => "Personal Files"@,
        UserDataValueKind::Media => "Personal Media"@,
        UserDataValueKind::Archives => "Archives"@,
        UserDataValueKind::DiskImages => "Disk Images"@,
        UserDataValueKind::DeveloperData => "Developer Data"@,
        UserDataValueKind::AppData => "App Data"@,
    }
}

/// The category under which a kind of data is listed.
pub fn user_data_category_for_kind(kind: UserDataValueKind) -> (r: &'static str)
    ensures
        r@ == spec_user_data_category_for_kind(kind),
{
    match kind {
        UserDataValueKind::Documents => "Personal Files",
        UserDataValueKind::Media => "Personal Media",
        UserDataValueKind::Archives => "Archives",
        UserDataValueKind::DiskImages => "Disk Images",
        UserDataValueKind::DeveloperData => "Developer Data",
        UserDataValueKind::AppData => "App Data",
    }
}

pub open spec fn spec_user_data_reason_for_kind(kind: UserDataValueKind) -> Seq<char> {
    match kind {
        UserDataValueKind::Documents => "Document-heavy folders usually contain user-authored work worth migrating."@,
        UserDataValueKind::Media => "Media-heavy folders often contain personal assets that are expensive to rebuild."@,
        UserDataValueKind::Archives => "Archive-heavy folders may contain curated packages or backups worth preserving."@,
        UserDataValueKind::DiskImages => "Disk image and virtual-machine files are large but often intentional user assets."@,
        UserDataValueKind::DeveloperData => "Developer workspaces such as notebooks or emulator data can be costly to recreate."@,
        UserDataValueKind::AppData => "Application data folders often contain databases, configuration, and account state worth migrating."@,
    }
}

/// Why a kind of data is proposed for migration.
pub fn user_data_reason_for_kind(kind: UserDataValueKind) -> (r: &'static str)
    ensures
        r@ == spec_user_data_reason_for_kind(kind),
{
    match kind {
        UserDataValueKind::Documents => "Document-heavy folders usually contain user-authored work worth migrating.",
        UserDataValueKind::Media => "Media-heavy folders often contain personal assets that are expensive to rebuild.",
        UserDataValueKind::Archives => "Archive-heavy folders may contain curated packages or backups worth preserving.",
        UserDataValueKind::DiskImages => "Disk image and virtual-machine files are large but often intentional user assets.",
        UserDataValueKind::DeveloperData => "Developer workspaces such as notebooks or emulator data can be costly to recreate.",
        UserDataValueKind::AppData => "Application data folders often contain databases, configuration, and account state worth migrating.",
    }
}

/// What a look into a folder found.
#[derive(Debug, Clone, Copy)]
pub struct UserDataDirectoryEvidence {
    pub document_files: usize,
    pub media_files: usize,
    pub archive_files: usize,
    pub disk_image_files: usize,
    pub notebook_files: usize,
    pub app_data_files: usize,
    pub android_avd_marker_files: usize,
    pub android_avd_child_dirs: usize,
    pub android_sdk_component_dirs: usize,
    pub config_dir_hits: usize,
    pub executable_files: usize,
    pub total_files: usize,
    pub wallpaper_name_hint: bool,
    pub notebook_name_hint: bool,
}

/// Whether no count of the evidence is at its largest value.
pub open spec fn evidence_has_room(e: UserDataDirectoryEvidence) -> bool {
    &&& e.document_files < usize::MAX
    &&& e.media_files < usize::MAX
    &&& e.archive_files < usize::MAX
    &&& e.disk_image_files < usize::MAX
    &&& e.notebook_files < usize::MAX
    &&& e.app_data_files < usize::MAX
    &&& e.android_avd_marker_files < usize::MAX
    &&& e.android_avd_child_dirs < usize::MAX
    &&& e.android_sdk_component_dirs < usize::MAX
    &&& e.config_dir_hits < usize::MAX
    &&& e.executable_files < usize::MAX
    &&& e.total_files < usize::MAX
}

pub open spec fn inc(n: usize, b: bool) -> usize {
    if b {
        (n + 1) as usize
    } else {
        n
    }
}

/// The folder-name hints: wallpaper or background folders, notebook folders.
pub open spec fn name_hints(path: Seq<char>) -> (bool, bool) {
    let n = lower(trim(name_or_empty(path)));
    (
        contains(n, "wallpaper"@) || contains(n, "background"@) || contains(n, "壁纸"@),
        contains(n, "jupyter"@) || contains(n, "notebook"@),
    )
}

/// What one walk entry adds to the evidence about a folder, and what the walk does
/// next: entries left out of every walk are skipped; folders one level down count as
/// emulator devices or SDK components, and up to two levels down as application-data
/// folders; files are counted by kind, and the walk stops at the 400th file.
pub open spec fn evidence_step(e: UserDataDirectoryEvidence, entry: WalkEntry) -> (UserDataDirectoryEvidence, WalkAction) {
    let name = name_or_empty(entry.path@);
    if spec_is_known_noise(entry.path@) {
        (e, skip_action(entry.is_dir))
    } else if entry.is_dir {
        (
            UserDataDirectoryEvidence {
                android_avd_child_dirs: inc(e.android_avd_child_dirs, entry.depth == 1 && ends_with(lower(name), ".avd"@)),
                android_sdk_component_dirs: inc(
                    e.android_sdk_component_dirs,
                    entry.depth == 1 && spec_is_android_sdk_component_directory_name(name),
                ),
                config_dir_hits: inc(e.config_dir_hits, entry.depth <= 2 && spec_is_probable_app_data_directory_name(name)),
                ..e
            },
            WalkAction::Continue,
        )
    } else if !entry.is_file {
        (e, WalkAction::Continue)
    } else {
        let counted = UserDataDirectoryEvidence {
            total_files: (e.total_files + 1) as usize,
            executable_files: inc(e.executable_files, spec_is_executable_file(entry.path@)),
            ..e
        };
        if counted.total_files >= 400 {
            (counted, WalkAction::Stop)
        } else {
            let kind = spec_classify_user_data_file_kind(entry.path@, entry.len);
            (
                UserDataDirectoryEvidence {
                    document_files: inc(counted.document_files, kind == Some(UserDataValueKind::Documents)),
                    media_files: inc(counted.media_files, kind == Some(UserDataValueKind::Media)),
                    archive_files: inc(counted.archive_files, kind == Some(UserDataValueKind::Archives)),
                    disk_image_files: inc(counted.disk_image_files, kind == Some(UserDataValueKind::DiskImages)),
                    notebook_files: inc(counted.notebook_files, kind == Some(UserDataValueKind::DeveloperData)),
                    app_data_files: inc(counted.app_data_files, kind == Some(UserDataValueKind::AppData)),
                    android_avd_marker_files: inc(counted.android_avd_marker_files, spec_is_android_avd_marker_file_name(name)),
                    ..counted
                },
                WalkAction::Continue,
            )
        }
    }
}

fn bump(n: usize, b: bool) -> (r: usize)
    requires
        n < usize::MAX,
    ensures
        r == inc(n, b),
{
    if b {
        n + 1
    } else {
        n
    }
}

impl UserDataDirectoryEvidence {
    /// The evidence before a folder is walked: no counts, and the hints its name gives.
    pub fn new_for_directory(path: &str) -> (r: Self)
        ensures
            r.document_files == 0 && r.media_files == 0 && r.archive_files == 0 && r.disk_image_files == 0,
            r.notebook_files == 0 && r.app_data_files == 0 && r.android_avd_marker_files == 0,
            r.android_avd_child_dirs == 0 && r.android_sdk_component_dirs == 0 && r.config_dir_hits == 0,
            r.executable_files == 0 && r.total_files == 0,
            (r.wallpaper_name_hint, r.notebook_name_hint) == name_hints(path@),
    {
        let p = chars_of(path);
        let n = crate::winpath::name_or_empty_exec(p.as_slice());
        let t = trim_chars(n.as_slice());
        let l = lower_chars(t.as_slice());
        let l = l.as_slice();
        UserDataDirectoryEvidence {
            document_files: 0,
            media_files: 0,
            archive_files: 0,
            disk_image_files: 0,
            notebook_files: 0,
            app_data_files: 0,
            android_avd_marker_files: 0,
            android_avd_child_dirs: 0,
            android_sdk_component_dirs: 0,
            config_dir_hits: 0,
            executable_files: 0,
            total_files: 0,
            wallpaper_name_hint: crate::text::contains_str(l, "wallpaper") || crate::text::contains_str(l, "background")
                || crate::text::contains_str(l, "壁纸"),
            notebook_name_hint: crate::text::contains_str(l, "jupyter") || crate::text::contains_str(l, "notebook"),
        }
    }

    /// Whether another entry can be recorded without a count overflowing.
    pub fn has_room(&self) -> (r: bool)
        ensures
            r == evidence_has_room(*self),
    {
        self.document_files < usize::MAX && self.media_files < usize::MAX && self.archive_files < usize::MAX
            && self.disk_image_files < usize::MAX && self.notebook_files < usize::MAX && self.app_data_files
            < usize::MAX && self.android_avd_marker_files < usize::MAX && self.android_avd_child_dirs < usize::MAX
            && self.android_sdk_component_dirs < usize::MAX && self.config_dir_hits < usize::MAX
            && self.executable_files < usize::MAX && self.total_files < usize::MAX
    }

    /// Records one entry of the walk of a folder.
    pub fn record_entry(&mut self, entry: &WalkEntry) -> (r: WalkAction)
        requires
            evidence_has_room(*old(self)),
        ensures
            (*final(self), r) == evidence_step(*old(self), *entry),
    {
        if crate::plan::is_known_noise(entry.path.as_str()) {
            return if entry.is_dir {
                WalkAction::SkipDir
            } else {
                WalkAction::Continue
            };
        }
        let p = chars_of(entry.path.as_str());
        let name = crate::winpath::name_or_empty_exec(p.as_slice());
        let name_s = string_from(name.as_slice());
        if entry.is_dir {
            let lname = lower_chars(name.as_slice());
            let avd = entry.depth == 1 && crate::text::ends_with_str(lname.as_slice(), ".avd");
            let sdk = entry.depth == 1 && crate::plan::is_android_sdk_component_directory_name(name_s.as_str());
            let cfg = entry.depth <= 2 && crate::plan::is_probable_app_data_directory_name(name_s.as_str());
            self.android_avd_child_dirs = bump(self.android_avd_child_dirs, avd);
            self.android_sdk_component_dirs = bump(self.android_sdk_component_dirs, sdk);
            self.config_dir_hits = bump(self.config_dir_hits, cfg);
            return WalkAction::Continue;
        }
        if !entry.is_file {
            return WalkAction::Continue;
        }
        self.total_files += 1;
        let exe = crate::plan::is_executable_file(entry.path.as_str());
        self.executable_files = bump(self.executable_files, exe);
        if self.total_files >= 400 {
            return WalkAction::Stop;
        }
        let kind = classify_user_data_file_kind(entry.path.as_str(), entry.len);
        self.document_files = bump(self.document_files, kind == Some(UserDataValueKind::Documents));
        self.media_files = bump(self.media_files, kind == Some(UserDataValueKind::Media));
        self.archive_files = bump(self.archive_files, kind == Some(UserDataValueKind::Archives));
        self.disk_image_files = bump(self.disk_image_files, kind == Some(UserDataValueKind::DiskImages));
        self.notebook_files = bump(self.notebook_files, kind == Some(UserDataValueKind::DeveloperData));
        self.app_data_files = bump(self.app_data_files, kind == Some(UserDataValueKind::AppData));
        let marker = crate::plan::is_android_avd_marker_file_name(name_s.as_str());
        self.android_avd_marker_files = bump(self.android_avd_marker_files, marker);
        WalkAction::Continue
    }
}

/// The kind of data a folder holds, from what a look into it found.
pub open spec fn spec_classify_user_data_directory_kind(e: UserDataDirectoryEvidence) -> Option<UserDataValueKind> {
    if e.android_sdk_component_dirs >= 3 {
        Some(UserDataValueKind::DeveloperData)
    } else if e.android_avd_child_dirs >= 1 || (e.android_avd_marker_files >= 2 && e.disk_image_files >= 1) {
        Some(UserDataValueKind::DeveloperData)
    } else if e.notebook_files >= 1 {
        Some(UserDataValueKind::DeveloperData)
    } else if e.disk_image_files >= 1 {
        Some(UserDataValueKind::DiskImages)
    } else if e.app_data_files >= 8 && e.executable_files == 0 {
        Some(UserDataValueKind::AppData)
    } else if e.config_dir_hits >= 2 && e.app_data_files >= 2 && e.executable_files == 0 {
        Some(UserDataValueKind::AppData)
    } else if e.archive_files >= 3 && e.executable_files == 0 {
        Some(UserDataValueKind::Archives)
    } else if e.media_files >= 8 && e.executable_files == 0 {
        Some(UserDataValueKind::Media)
    } else if e.wallpaper_name_hint && e.media_files >= 1 && e.executable_files == 0 {
        Some(UserDataValueKind::Media)
    } else if e.document_files >= 5 && e.executable_files == 0 {
        Some(UserDataValueKind::Documents)
    } else if e.notebook_name_hint && e.document_files >= 2 && e.executable_files == 0 {
        Some(UserDataValueKind::DeveloperData)
    } else {
        None
    }
}

pub fn classify_user_data_directory_kind(evidence: &UserDataDirectoryEvidence) -> (r: Option<UserDataValueKind>)
    ensures
        r == spec_classify_user_data_directory_kind(*evidence),
{
    let e = evidence;
    if e.android_sdk_component_dirs >= 3 {
        Some(UserDataValueKind::DeveloperData)
    } else if e.android_avd_child_dirs >= 1 || (e.android_avd_marker_files >= 2 && e.disk_image_files >= 1) {
        Some(UserDataValueKind::DeveloperData)
    } else if e.notebook_files >= 1 {
        Some(UserDataValueKind::DeveloperData)
    } else if e.disk_image_files >= 1 {
        Some(UserDataValueKind::DiskImages)
    } else if e.app_data_files >= 8 && e.executable_files == 0 {
        Some(UserDataValueKind::AppData)
    } else if e.config_dir_hits >= 2 && e.app_data_files >= 2 && e.executable_files == 0 {
        Some(UserDataValueKind::AppData)
    } else if e.archive_files >= 3 && e.executable_files == 0 {
        Some(UserDataValueKind::Archives)
    } else if e.media_files >= 8 && e.executable_files == 0 {
        Some(UserDataValueKind::Media)
    } else if e.wallpaper_name_hint && e.media_files >= 1 && e.executable_files == 0 {
        Some(UserDataValueKind::Media)
    } else if e.document_files >= 5 && e.executable_files == 0 {
        Some(UserDataValueKind::Documents)
    } else if e.notebook_name_hint && e.document_files >= 2 && e.executable_files == 0 {
        Some(UserDataValueKind::DeveloperData)
    } else {
        None
    }
}

/// A folder of documents is personal documents: with five or more documents, no
/// executable, and nothing that marks it as developer data, disk images, app data,
/// archives or media, it is classified as documents.
pub proof fn law_document_folder_is_documents(e: UserDataDirectoryEvidence)
    requires
        e.document_files >= 5,
        e.executable_files == 0,
        e.android_sdk_component_dirs < 3,
        e.android_avd_child_dirs == 0,
        e.notebook_files == 0,
        e.disk_image_files == 0,
        e.app_data_files < 8,
        e.config_dir_hits < 2 || e.app_data_files < 2,
        e.archive_files < 3,
        e.media_files < 8,
        !e.wallpaper_name_hint || e.media_files == 0,
    ensures
        spec_classify_user_data_directory_kind(e) == Some(UserDataValueKind::Documents),
{
}

/// A folder with disk images and nothing that marks it as developer data is
/// classified as disk images, whatever else it holds.
pub proof fn law_disk_image_folder_is_disk_images(e: UserDataDirectoryEvidence)
    requires
        e.disk_image_files >= 1,
        e.android_sdk_component_dirs < 3,
        e.android_avd_child_dirs == 0,
        e.android_avd_marker_files < 2,
        e.notebook_files == 0,
    ensures
        spec_classify_user_data_directory_kind(e) == Some(UserDataValueKind::DiskImages),
{
}

/// A folder of eight or more media files without executables, and without anything
/// that marks it as developer data, disk images, app data or archives, is media.
pub proof fn law_media_folder_is_media(e: UserDataDirectoryEvidence)
    requires
        e.media_files >= 8,
        e.executable_files == 0,
        e.android_sdk_component_dirs < 3,
        e.android_avd_child_dirs == 0,
        e.notebook_files == 0,
        e.disk_image_files == 0,
        e.app_data_files < 2,
        e.archive_files < 3,
    ensures
        spec_classify_user_data_directory_kind(e) == Some(UserDataValueKind::Media),
{
}

/// A folder of three or more archives without executables, and without anything that
/// marks it as developer data, disk images or app data, is archives.
pub proof fn law_archive_folder_is_archives(e: UserDataDirectoryEvidence)
    requires
        e.archive_files >= 3,
        e.executable_files == 0,
        e.android_sdk_component_dirs < 3,
        e.android_avd_child_dirs == 0,
        e.notebook_files == 0,
        e.disk_image_files == 0,
        e.app_data_files < 2,
    ensures
        spec_classify_user_data_directory_kind(e) == Some(UserDataValueKind::Archives),
{
}

/// A folder of eight or more application-data files without executables, and without
/// anything that marks it as developer data or disk images, is app data.
pub proof fn law_app_data_folder_is_app_data(e: UserDataDirectoryEvidence)
    requires
        e.app_data_files >= 8,
        e.executable_files == 0,
        e.android_sdk_component_dirs < 3,
        e.android_avd_child_dirs == 0,
        e.notebook_files == 0,
        e.disk_image_files == 0,
    ensures
        spec_classify_user_data_directory_kind(e) == Some(UserDataValueKind::AppData),
{
}

/// A folder with a notebook, or with three or more Android SDK component folders, or
/// an Android virtual device folder, is developer data.
pub proof fn law_developer_folder_is_developer_data(e: UserDataDirectoryEvidence)
    requires
        e.notebook_files >= 1 || e.android_sdk_component_dirs >= 3 || e.android_avd_child_dirs >= 1,
    ensures
        spec_classify_user_data_directory_kind(e) == Some(UserDataValueKind::DeveloperData),
{
}

/// A folder in which nothing was found is not proposed.
pub proof fn law_empty_evidence_is_nothing(e: UserDataDirectoryEvidence)
    requires
        e.document_files == 0,
        e.media_files == 0,
        e.archive_files == 0,
        e.disk_image_files == 0,
        e.notebook_files == 0,
        e.app_data_files == 0,
        e.android_avd_marker_files == 0,
        e.android_avd_child_dirs == 0,
        e.android_sdk_component_dirs == 0,
    ensures
        spec_classify_user_data_directory_kind(e) is None,
{
}

/// A folder that holds an executable is never taken for documents, app data,
/// archives or media: it is classified as developer data, disk images, or nothing.
pub proof fn law_folder_with_executable_is_not_personal_files(e: UserDataDirectoryEvidence)
    requires
        e.executable_files > 0,
    ensures
        spec_classify_user_data_directory_kind(e) matches Some(k) ==> (k == UserDataValueKind::DeveloperData || k
            == UserDataValueKind::DiskImages),
{
}

pub open spec fn min_nat(a: nat, b: nat) -> nat {
    if a < b {
        a
    } else {
        b
    }
}

/// The score of a folder candidate: a base by kind, a bonus for the evidence found
/// (each count capped), less a penalty where its name is generic.
pub open spec fn spec_user_data_directory_candidate_score(kind: UserDataValueKind, path: Seq<char>, e: UserDataDirectoryEvidence) -> int {
    let base: int = match kind {
        UserDataValueKind::DiskImages => 160,
        UserDataValueKind::DeveloperData => 140,
        UserDataValueKind::AppData => 130,
        UserDataValueKind::Archives => 120,
        UserDataValueKind::Media => 110,
        UserDataValueKind::Documents => 100,
    };
    let bonus: int = (min_nat(e.document_files as nat, 12) + min_nat(e.media_files as nat, 12) + min_nat(e.archive_files as nat, 8) * 2
        + min_nat(e.disk_image_files as nat, 8) * 4 + min_nat(e.notebook_files as nat, 8) * 5 + min_nat(e.app_data_files as nat, 12) * 3
        + min_nat(e.android_avd_child_dirs as nat, 4) * 8 + min_nat(e.android_sdk_component_dirs as nat, 6) * 8
        + min_nat(e.config_dir_hits as nat, 6) * 4) as int;
    let penalty: int = match file_name(path) {
        Some(n) => if spec_is_generic_user_container_name(n) {
            20
        } else {
            0
        },
        None => 0,
    };
    base + bonus - penalty
}

fn cap(n: usize, m: usize) -> (r: usize)
    ensures
        r == min_nat(n as nat, m as nat),
{
    if n < m {
        n
    } else {
        m
    }
}

pub fn user_data_directory_candidate_score(kind: UserDataValueKind, path: &str, evidence: &UserDataDirectoryEvidence) -> (r: usize)
    ensures
        r == spec_user_data_directory_candidate_score(kind, path@, *evidence),
{
    let base: usize = match kind {
        UserDataValueKind::DiskImages => 160,
        UserDataValueKind::DeveloperData => 140,
        UserDataValueKind::AppData => 130,
        UserDataValueKind::Archives => 120,
        UserDataValueKind::Media => 110,
        UserDataValueKind::Documents => 100,
    };
    let e = evidence;
    let bonus: usize = cap(e.document_files, 12) + cap(e.media_files, 12) + cap(e.archive_files, 8) * 2 + cap(e.disk_image_files, 8)
        * 4 + cap(e.notebook_files, 8) * 5 + cap(e.app_data_files, 12) * 3 + cap(e.android_avd_child_dirs, 4) * 8 + cap(
        e.android_sdk_component_dirs,
        6,
    ) * 8 + cap(e.config_dir_hits, 6) * 4;
    let p = chars_of(path);
    let penalty: usize = match crate::winpath::file_name_exec(p.as_slice()) {
        Some(n) => {
            let s = string_from(n.as_slice());
            if crate::plan::is_generic_user_container_name(s.as_str()) {
                20
            } else {
                0
            }
        },
        None => 0,
    };
    base + bonus - penalty
}

/// The score of a file candidate: a base by kind (documents where it has none) and a
/// bonus of one per MiB, up to fifty.
pub open spec fn spec_user_data_file_candidate_score(path: Seq<char>, len: Option<u64>) -> int {
    let kind = match spec_classify_user_data_file_kind(path, len) {
        Some(k) => k,
        None => UserDataValueKind::Documents,
    };
    let base: int = match kind {
        UserDataValueKind::DiskImages => 150,
        UserDataValueKind::DeveloperData => 130,
        UserDataValueKind::AppData => 120,
        UserDataValueKind::Archives => 110,
        UserDataValueKind::Media => 100,
        UserDataValueKind::Documents => 90,
    };
    let bonus: int = match len {
        Some(n) => min_nat((n / 1048576) as nat, 50) as int,
        None => 0,
    };
    base + bonus
}

pub fn user_data_file_candidate_score(path: &str, len: Option<u64>) -> (r: usize)
    ensures
        r == spec_user_data_file_candidate_score(path@, len),
{
    let kind = match classify_user_data_file_kind(path, len) {
        Some(k) => k,
        None => UserDataValueKind::Documents,
    };
    let base: usize = match kind {
        UserDataValueKind::DiskImages => 150,
        UserDataValueKind::DeveloperData => 130,
        UserDataValueKind::AppData => 120,
        UserDataValueKind::Archives => 110,
        UserDataValueKind::Media => 100,
        UserDataValueKind::Documents => 90,
    };
    let bonus: usize = match len {
        Some(n) => {
            let mb = n / 1048576;
            if mb < 50 {
                mb as usize
            } else {
                50
            }
        },
        None => 0,
    };
    base + bonus
}

} // verus!

verus! {

/// A personal-data path proposed for backup, before it is measured.
#[derive(Debug, Clone)]
pub struct UserDataCandidateSpec {
    pub category: String,
    pub label: String,
    pub path: String,
    pub reason: String,
}

pub open spec fn candidate_view(c: UserDataCandidateSpec) -> (Seq<char>, Seq<char>, Seq<char>, Seq<char>) {
    (c.category@, c.label@, c.path@, c.reason@)
}

/// The label of a user-added path: its file name, trimmed, or the whole path where
/// the name is missing or blank.
pub open spec fn spec_default_custom_user_data_label(path: Seq<char>) -> Seq<char> {
    match file_name(path) {
        Some(n) => if trim(n).len() > 0 {
            trim(n)
        } else {
            path
        },
        None => path,
    }
}

pub fn default_custom_user_data_label(path: &str) -> (r: String)
    ensures
        r@ == spec_default_custom_user_data_label(path@),
{
    let p = chars_of(path);
    match crate::winpath::file_name_exec(p.as_slice()) {
        Some(n) => {
            let t = trim_chars(n.as_slice());
            if t.len() > 0 {
                string_from(t.as_slice())
            } else {
                path.to_string()
            }
        },
        None => path.to_string(),
    }
}

/// The category of a user-added path: settings where it lies in an `AppData` folder or
/// its name starts with a dot, files otherwise.
pub open spec fn spec_custom_user_data_category(path: Seq<char>) -> Seq<char> {
    if contains(lower(path), "\\appdata\\"@) || (file_name(path) matches Some(n) && n.len() > 0 && n[0] == '.') {
        "Custom Settings"@
    } else {
        "Custom Files"@
    }
}

pub fn custom_user_data_category(path: &str) -> (r: String)
    ensures
        r@ == spec_custom_user_data_category(path@),
{
    let p = chars_of(path);
    let l = lower_chars(p.as_slice());
    let dotted = match crate::winpath::file_name_exec(p.as_slice()) {
        Some(n) => n.len() > 0 && n[0] == '.',
        None => false,
    };
    if crate::text::contains_str(l.as_slice(), "\\appdata\\") || dotted {
        "Custom Settings".to_string()
    } else {
        "Custom Files".to_string()
    }
}

/// The candidate a file at the top of a scan root makes, where its kind is known.
pub open spec fn spec_classify_scan_root_user_file_candidate(path: Seq<char>, len: Option<u64>) -> Option<(Seq<char>, Seq<char>, Seq<char>, Seq<char>)> {
    match spec_classify_user_data_file_kind(path, len) {
        Some(k) => Some(
            (spec_user_data_category_for_kind(k), spec_default_custom_user_data_label(path), path, spec_user_data_reason_for_kind(k)),
        ),
        None => None,
    }
}

pub fn classify_scan_root_user_file_candidate(path: &str, len: Option<u64>) -> (r: Option<UserDataCandidateSpec>)
    ensures
        match r {
            Some(c) => spec_classify_scan_root_user_file_candidate(path@, len) == Some(candidate_view(c)),
            None => spec_classify_scan_root_user_file_candidate(path@, len) is None,
        },
{
    let kind = match classify_user_data_file_kind(path, len) {
        Some(k) => k,
        None => return None,
    };
    Some(
        UserDataCandidateSpec {
            category: user_data_category_for_kind(kind).to_string(),
            label: default_custom_user_data_label(path),
            path: path.to_string(),
            reason: user_data_reason_for_kind(kind).to_string(),
        },
    )
}

/// The candidate a folder of a scan root makes, with its score, where what was found
/// in it gives it a kind.
pub open spec fn spec_evaluate_scan_root_user_directory_candidate(path: Seq<char>, e: UserDataDirectoryEvidence) -> Option<((Seq<char>, Seq<char>, Seq<char>, Seq<char>), int)> {
    match spec_classify_user_data_directory_kind(e) {
        Some(k) => Some(
            (
                (spec_user_data_category_for_kind(k), spec_default_custom_user_data_label(path), path, spec_user_data_reason_for_kind(k)),
                spec_user_data_directory_candidate_score(k, path, e),
            ),
        ),
        None => None,
    }
}

pub fn evaluate_scan_root_user_directory_candidate(path: &str, evidence: &UserDataDirectoryEvidence) -> (r: Option<(UserDataCandidateSpec, usize)>)
    ensures
        match r {
            Some((c, s)) => spec_evaluate_scan_root_user_directory_candidate(path@, *evidence) == Some((candidate_view(c), s as int)),
            None => spec_evaluate_scan_root_user_directory_candidate(path@, *evidence) is None,
        },
{
    let kind = match classify_user_data_directory_kind(evidence) {
        Some(k) => k,
        None => return None,
    };
    let score = user_data_directory_candidate_score(kind, path, evidence);
    Some(
        (
            UserDataCandidateSpec {
                category: user_data_category_for_kind(kind).to_string(),
                label: default_custom_user_data_label(path),
                path: path.to_string(),
                reason: user_data_reason_for_kind(kind).to_string(),
            },
            score,
        ),
    )
}

/// A personal-data path added by the user, with an optional label.
#[derive(Debug, Clone)]
pub struct CustomUserDataRoot {
    pub path: String,
    pub label: Option<String>,
}

/// The candidate a user-added path makes: its category, its label (the given one,
/// trimmed, where it is not blank), its path and a fixed reason.
pub open spec fn spec_custom_candidate(root: CustomUserDataRoot) -> (Seq<char>, Seq<char>, Seq<char>, Seq<char>) {
    (
        spec_custom_user_data_category(root.path@),
        match root.label {
            Some(l) => if trim(l@).len() > 0 {
                trim(l@)
            } else {
                spec_default_custom_user_data_label(root.path@)
            },
            None => spec_default_custom_user_data_label(root.path@),
        },
        root.path@,
        "User-added custom migration path."@,
    )
}

/// The candidates among the first `k` user-added paths that exist.
pub open spec fn custom_candidates(roots: Seq<CustomUserDataRoot>, exists: Seq<bool>, k: int) -> Seq<(Seq<char>, Seq<char>, Seq<char>, Seq<char>)>
    decreases k,
{
    if k <= 0 {
        seq![]
    } else {
        custom_candidates(roots, exists, k - 1) + if exists[k - 1] {
            seq![spec_custom_candidate(roots[k - 1])]
        } else {
            seq![]
        }
    }
}

/// The candidates that user-added paths make: `exists[i]` tells whether the path of
/// `custom_user_roots[i]` exists; missing paths are left out.
pub fn custom_user_data_candidates(custom_user_roots: &[CustomUserDataRoot], exists: &[bool]) -> (r: Vec<UserDataCandidateSpec>)
    requires
        exists.len() == custom_user_roots.len(),
    ensures
        r@.map_values(|c: UserDataCandidateSpec| candidate_view(c)) == custom_candidates(custom_user_roots@, exists@, exists.len() as int),
{
    let mut out: Vec<UserDataCandidateSpec> = Vec::new();
    let mut i: usize = 0;
    while i < custom_user_roots.len()
        invariant
            i <= custom_user_roots.len() == exists.len(),
            out@.map_values(|c: UserDataCandidateSpec| candidate_view(c)) == custom_candidates(custom_user_roots@, exists@, i as int),
        decreases custom_user_roots.len() - i,
    {
        let ghost before = out@.map_values(|c: UserDataCandidateSpec| candidate_view(c));
        if exists[i] {
            let root = &custom_user_roots[i];
            let label = match &root.label {
                Some(l) => {
                    let lc = chars_of(l.as_str());
                    let t = trim_chars(lc.as_slice());
                    if t.len() > 0 {
                        string_from(t.as_slice())
                    } else {
                        default_custom_user_data_label(root.path.as_str())
                    }
                },
                None => default_custom_user_data_label(root.path.as_str()),
            };
            out.push(
                UserDataCandidateSpec {
                    category: custom_user_data_category(root.path.as_str()),
                    label,
                    path: root.path.clone(),
                    reason: "User-added custom migration path.".to_string(),
                },
            );
            assert(out@.map_values(|c: UserDataCandidateSpec| candidate_view(c)) =~= before.push(spec_custom_candidate(*root)));
        } else {
            assert(out@.map_values(|c: UserDataCandidateSpec| candidate_view(c)) =~= custom_candidates(custom_user_roots@, exists@, i + 1));
        }
        i += 1;
    }
    out
}

/// A personal-data root lies at or under a portable candidate's root.
pub open spec fn under_portable_root(path: Seq<char>, candidates: Seq<crate::models::PortableAppCandidate>) -> bool {
    exists|j: int| 0 <= j < candidates.len() && (crate::winpath::path_eq(path, #[trigger] candidates[j].root_path@)
        || crate::winpath::path_starts_with(path, candidates[j].root_path@))
}

fn copy_root(r: &crate::models::UserDataRoot) -> (c: crate::models::UserDataRoot)
    ensures
        c == *r,
{
    crate::models::UserDataRoot {
        category: r.category.clone(),
        label: r.label.clone(),
        path: r.path.clone(),
        reason: r.reason.clone(),
        stats: r.stats,
    }
}

/// Drops the personal-data roots that lie inside a portable application, which is
/// backed up whole; the others keep their order.
pub fn filter_user_data_roots_against_portable_candidates(roots: Vec<crate::models::UserDataRoot>, portable_candidates: &[crate::models::PortableAppCandidate]) -> (r: Vec<crate::models::UserDataRoot>)
    ensures
        r@ == roots@.filter(|x: crate::models::UserDataRoot| !under_portable_root(x.path@, portable_candidates@)),
{
    let ghost pred = |x: crate::models::UserDataRoot| !under_portable_root(x.path@, portable_candidates@);
    let mut out: Vec<crate::models::UserDataRoot> = Vec::new();
    let mut i: usize = 0;
    while i < roots.len()
        invariant
            i <= roots@.len(),
            pred == (|x: crate::models::UserDataRoot| !under_portable_root(x.path@, portable_candidates@)),
            out@ == roots@.take(i as int).filter(pred),
        decreases roots@.len() - i,
    {
        let p = chars_of(roots[i].path.as_str());
        let mut inside = false;
        let mut j: usize = 0;
        while j < portable_candidates.len()
            invariant
                j <= portable_candidates@.len(),
                p@ == roots@[i as int].path@,
                inside == exists|k: int| 0 <= k < j && (crate::winpath::path_eq(p@, #[trigger] portable_candidates@[k].root_path@)
                    || crate::winpath::path_starts_with(p@, portable_candidates@[k].root_path@)),
            decreases portable_candidates@.len() - j,
        {
            let c = chars_of(portable_candidates[j].root_path.as_str());
            if crate::winpath::path_eq_exec(p.as_slice(), c.as_slice()) || crate::winpath::path_starts_with_exec(
                p.as_slice(),
                c.as_slice(),
            ) {
                inside = true;
            }
            j += 1;
        }
        proof {
            reveal(Seq::filter);
            assert(roots@.take(i + 1).drop_last() =~= roots@.take(i as int));
        }
        if !inside {
            out.push(copy_root(&roots[i]));
        }
        i += 1;
    }
    assert(roots@.take(i as int) =~= roots@);
    out
}

} // verus!

verus! {

/// The well-known personal-data and settings paths under a user profile, its roaming
/// and its local application-data folders, as (category, label, path, reason).
pub open spec fn spec_default_user_data_candidates(profile: Seq<char>, roaming: Seq<char>, local: Seq<char>) -> Seq<(Seq<char>, Seq<char>, Seq<char>, Seq<char>)> {
    seq![
        ("Personal Files"@, "Desktop"@, join(profile, "Desktop"@), "Files placed directly on the desktop often need migration."@),
        ("Personal Files"@, "Documents"@, join(profile, "Documents"@), "Common personal documents and working files."@),
        ("Personal Files"@, "Pictures"@, join(profile, "Pictures"@), "User photos and exported images."@),
        ("Personal Files"@, "Videos"@, join(profile, "Videos"@), "Personal video files are often large, so keep them reviewable."@),
        ("Personal Files"@, "Music"@, join(profile, "Music"@), "Media libraries can be large and are optional by default."@),
        ("Personal Files"@, "Downloads"@, join(profile, "Downloads"@), "Downloads often contain installers and temporary files, so review before keeping."@),
        ("Personal Files"@, "Favorites"@, join(profile, "Favorites"@), "Legacy browser and shell favorites are small and easy to carry over."@),
        ("Personal Files"@, "Saved Games"@, join(profile, "Saved Games"@), "Many Windows games still keep local saves here."@),
        ("Developer Settings"@, "SSH"@, join(profile, ".ssh"@), "SSH keys and config are high-value migration data."@),
        ("Developer Settings"@, "GitConfig"@, join(profile, ".gitconfig"@), "Git identity and aliases are small but valuable."@),
        ("Developer Settings"@, "Windows PowerShell Profile"@, join(join(profile, "Documents"@), "WindowsPowerShell\\Microsoft.PowerShell_profile.ps1"@), "Legacy PowerShell profile customizations are often hand-tuned."@),
        ("Developer Settings"@, "PowerShell Profile"@, join(join(profile, "Documents"@), "PowerShell\\Microsoft.PowerShell_profile.ps1"@), "PowerShell 7 profile customizations are small and worth carrying over."@),
        ("App Settings"@, "VS Code User"@, join(roaming, "Code\\User"@), "Editor preferences and snippets migrate well."@),
        ("App Settings"@, "Cursor User"@, join(roaming, "Cursor\\User"@), "Cursor settings and prompts are usually worth carrying over."@),
        ("App Settings"@, "Windows Terminal"@, join(local, "Packages\\Microsoft.WindowsTerminal_8wekyb3d8bbwe\\LocalState"@), "Terminal profiles and settings are compact configuration data."@),
        ("Browser Data"@, "Chrome Bookmarks"@, join(local, "Google\\Chrome\\User Data\\Default\\Bookmarks"@), "Browser bookmarks are small and useful after reinstall."@),
        ("Browser Data"@, "Edge Bookmarks"@, join(local, "Microsoft\\Edge\\User Data\\Default\\Bookmarks"@), "Browser bookmarks are small and useful after reinstall."@),
        ("Browser Data"@, "Firefox Profiles"@, join(roaming, "Mozilla\\Firefox"@), "Firefox profiles preserve bookmarks, extensions metadata, and profile settings."@),
        ("App Settings"@, "Notepad++"@, join(roaming, "Notepad++"@), "Notepad++ preferences and session data are compact and migration-friendly."@),
        ("App Settings"@, "OBS Studio"@, join(roaming, "obs-studio"@), "OBS scenes, profiles, and output settings can take time to rebuild."@),
    ]
}

fn candidate(category: &str, label: &str, path: String, reason: &str) -> (r: UserDataCandidateSpec)
    ensures
        candidate_view(r) == (category@, label@, path@, reason@),
{
    UserDataCandidateSpec { category: category.to_string(), label: label.to_string(), path, reason: reason.to_string() }
}

fn join_text(a: &str, b: &str) -> (r: String)
    ensures
        r@ == join(a@, b@),
{
    let av = chars_of(a);
    let bv = chars_of(b);
    let j = crate::winpath::join_exec(av.as_slice(), bv.as_slice());
    string_from(j.as_slice())
}

/// The well-known personal-data and settings paths under a user profile, its roaming
/// and its local application-data folders.
pub fn default_user_data_candidates(profile: &str, roaming: &str, local: &str) -> (r: Vec<UserDataCandidateSpec>)
    ensures
        r@.map_values(|c: UserDataCandidateSpec| candidate_view(c)) == spec_default_user_data_candidates(profile@, roaming@, local@),
{
    let documents = join_text(profile, "Documents");
    let mut v: Vec<UserDataCandidateSpec> = Vec::new();
    v.push(candidate("Personal Files", "Desktop", join_text(profile, "Desktop"), "Files placed directly on the desktop often need migration."));
    v.push(candidate("Personal Files", "Documents", join_text(profile, "Documents"), "Common personal documents and working files."));
    v.push(candidate("Personal Files", "Pictures", join_text(profile, "Pictures"), "User photos and exported images."));
    v.push(candidate("Personal Files", "Videos", join_text(profile, "Videos"), "Personal video files are often large, so keep them reviewable."));
    v.push(candidate("Personal Files", "Music", join_text(profile, "Music"), "Media libraries can be large and are optional by default."));
    v.push(candidate("Personal Files", "Downloads", join_text(profile, "Downloads"), "Downloads often contain installers and temporary files, so review before keeping."));
    v.push(candidate("Personal Files", "Favorites", join_text(profile, "Favorites"), "Legacy browser and shell favorites are small and easy to carry over."));
    v.push(candidate("Personal Files", "Saved Games", join_text(profile, "Saved Games"), "Many Windows games still keep local saves here."));
    v.push(candidate("Developer Settings", "SSH", join_text(profile, ".ssh"), "SSH keys and config are high-value migration data."));
    v.push(candidate("Developer Settings", "GitConfig", join_text(profile, ".gitconfig"), "Git identity and aliases are small but valuable."));
    v.push(candidate("Developer Settings", "Windows PowerShell Profile", join_text(documents.as_str(), "WindowsPowerShell\\Microsoft.PowerShell_profile.ps1"), "Legacy PowerShell profile customizations are often hand-tuned."));
    v.push(candidate("Developer Settings", "PowerShell Profile", join_text(documents.as_str(), "PowerShell\\Microsoft.PowerShell_profile.ps1"), "PowerShell 7 profile customizations are small and worth carrying over."));
    v.push(candidate("App Settings", "VS Code User", join_text(roaming, "Code\\User"), "Editor preferences and snippets migrate well."));
    v.push(candidate("App Settings", "Cursor User", join_text(roaming, "Cursor\\User"), "Cursor settings and prompts are usually worth carrying over."));
    v.push(candidate("App Settings", "Windows Terminal", join_text(local, "Packages\\Microsoft.WindowsTerminal_8wekyb3d8bbwe\\LocalState"), "Terminal profiles and settings are compact configuration data."));
    v.push(candidate("Browser Data", "Chrome Bookmarks", join_text(local, "Google\\Chrome\\User Data\\Default\\Bookmarks"), "Browser bookmarks are small and useful after reinstall."));
    v.push(candidate("Browser Data", "Edge Bookmarks", join_text(local, "Microsoft\\Edge\\User Data\\Default\\Bookmarks"), "Browser bookmarks are small and useful after reinstall."));
    v.push(candidate("Browser Data", "Firefox Profiles", join_text(roaming, "Mozilla\\Firefox"), "Firefox profiles preserve bookmarks, extensions metadata, and profile settings."));
    v.push(candidate("App Settings", "Notepad++", join_text(roaming, "Notepad++"), "Notepad++ preferences and session data are compact and migration-friendly."));
    v.push(candidate("App Settings", "OBS Studio", join_text(roaming, "obs-studio"), "OBS scenes, profiles, and output settings can take time to rebuild."));
    assert(v@.map_values(|c: UserDataCandidateSpec| candidate_view(c)) =~= spec_default_user_data_candidates(profile@, roaming@, local@));
    v
}

} // verus!

verus! {

/// A candidate found under a scan root, with its score.
#[derive(Debug, Clone)]
pub struct DiscoveredUserDataCandidate {
    pub spec: UserDataCandidateSpec,
    pub score: usize,
}

pub type DiscoveredView = ((Seq<char>, Seq<char>, Seq<char>, Seq<char>), usize);

pub open spec fn discovered_view(d: DiscoveredUserDataCandidate) -> DiscoveredView {
    (candidate_view(d.spec), d.score)
}

pub open spec fn discovered_views(s: Seq<DiscoveredUserDataCandidate>) -> Seq<DiscoveredView> {
    s.map_values(|d: DiscoveredUserDataCandidate| discovered_view(d))
}

/// How discovered candidates are ranked: higher scores first, then deeper paths, then
/// by label.
pub open spec fn rank_key(d: DiscoveredView) -> crate::order::KeyView {
    ((u64::MAX - d.1) as u64, (u64::MAX - crate::winpath::component_count(d.0.2)) as u64, d.0.1)
}

pub open spec fn rank_keys(s: Seq<DiscoveredView>) -> Seq<crate::order::KeyView> {
    s.map_values(|d: DiscoveredView| rank_key(d))
}

pub open spec fn label_keys(s: Seq<DiscoveredView>) -> Seq<crate::order::KeyView> {
    s.map_values(|d: DiscoveredView| (0u64, 0u64, d.0.1))
}

pub open spec fn in_rank_order(s: Seq<DiscoveredView>, order: Seq<usize>) -> Seq<DiscoveredView> {
    order.map_values(|i: usize| s[i as int])
}

/// The first `k` ranked candidates, each kept unless its path overlaps one kept before.
pub open spec fn keep_non_overlapping(s: Seq<DiscoveredView>, k: int) -> Seq<DiscoveredView>
    decreases k,
{
    if k <= 0 {
        seq![]
    } else {
        let prev = keep_non_overlapping(s, k - 1);
        if exists|j: int| 0 <= j < prev.len() && crate::plan::spec_paths_overlap(#[trigger] prev[j].0.2, s[k - 1].0.2) {
            prev
        } else {
            prev.push(s[k - 1])
        }
    }
}

/// The candidates kept when taken in the rank order `o1`.
pub open spec fn kept_of(candidates: Seq<DiscoveredUserDataCandidate>, o1: Seq<usize>) -> Seq<DiscoveredView> {
    keep_non_overlapping(in_rank_order(discovered_views(candidates), o1), candidates.len() as int)
}

fn copy_candidate(c: &UserDataCandidateSpec) -> (r: UserDataCandidateSpec)
    ensures
        candidate_view(r) == candidate_view(*c),
{
    UserDataCandidateSpec { category: c.category.clone(), label: c.label.clone(), path: c.path.clone(), reason: c.reason.clone() }
}

fn keys_for(s: &Vec<DiscoveredUserDataCandidate>, by_rank: bool) -> (r: Vec<crate::order::SortKey>)
    ensures
        crate::order::sort_key_views(r@) == if by_rank {
            rank_keys(discovered_views(s@))
        } else {
            label_keys(discovered_views(s@))
        },
{
    let mut keys: Vec<crate::order::SortKey> = Vec::new();
    let mut i: usize = 0;
    while i < s.len()
        invariant
            i <= s@.len(),
            crate::order::sort_key_views(keys@) == if by_rank {
                rank_keys(discovered_views(s@).take(i as int))
            } else {
                label_keys(discovered_views(s@).take(i as int))
            },
        decreases s@.len() - i,
    {
        let ghost before = crate::order::sort_key_views(keys@);
        let label = chars_of(s[i].spec.label.as_str());
        if by_rank {
            let p = chars_of(s[i].spec.path.as_str());
            let n = crate::winpath::component_count_exec(p.as_slice());
            let score = s[i].score as u64;
            keys.push(crate::order::SortKey { first: u64::MAX - score, second: u64::MAX - (n as u64), text: label });
            assert(crate::order::sort_key_views(keys@) =~= before.push(rank_key(discovered_view(s@[i as int]))));
        } else {
            keys.push(crate::order::SortKey { first: 0, second: 0, text: label });
            assert(crate::order::sort_key_views(keys@) =~= before.push((0u64, 0u64, discovered_view(s@[i as int]).0.1)));
        }
        i += 1;
        assert(discovered_views(s@).take(i as int) =~= discovered_views(s@).take(i - 1).push(discovered_view(s@[i - 1])));
        if by_rank {
            assert(crate::order::sort_key_views(keys@) =~= rank_keys(discovered_views(s@).take(i as int)));
        } else {
            assert(crate::order::sort_key_views(keys@) =~= label_keys(discovered_views(s@).take(i as int)));
        }
    }
    assert(discovered_views(s@).take(i as int) =~= discovered_views(s@));
    keys
}

/// Keeps the best of overlapping candidates: ranks them (higher scores first, then
/// deeper paths, then by label), keeps each unless its path overlaps one kept before,
/// and lists the kept ones by label.
pub fn reconcile_discovered_user_data_candidates(candidates: Vec<DiscoveredUserDataCandidate>) -> (r: Vec<UserDataCandidateSpec>)
    ensures
        exists|o1: Seq<usize>, o2: Seq<usize>|
            #![trigger crate::order::is_stable_order(rank_keys(discovered_views(candidates@)), o1), crate::order::is_stable_order(label_keys(kept_of(candidates@, o1)), o2)]
            crate::order::is_stable_order(rank_keys(discovered_views(candidates@)), o1)
                && crate::order::is_stable_order(label_keys(kept_of(candidates@, o1)), o2)
                && r@.map_values(|c: UserDataCandidateSpec| candidate_view(c)) == in_rank_order(kept_of(candidates@, o1), o2).map_values(
                |d: DiscoveredView| d.0,
            ),
{
    let keys1 = keys_for(&candidates, true);
    let order1 = crate::order::stable_order(keys1.as_slice());
    let ghost ranked = in_rank_order(discovered_views(candidates@), order1@);
    let mut kept: Vec<DiscoveredUserDataCandidate> = Vec::new();
    let mut k: usize = 0;
    while k < order1.len()
        invariant
            k <= order1@.len(),
            order1@.len() == candidates@.len(),
            forall|m: int| 0 <= m < order1@.len() ==> order1@[m] < candidates@.len(),
            ranked == in_rank_order(discovered_views(candidates@), order1@),
            discovered_views(kept@) == keep_non_overlapping(ranked, k as int),
        decreases order1@.len() - k,
    {
        let ghost prev = discovered_views(kept@);
        let cand = &candidates[order1[k]];
        assert(ranked[k as int] == discovered_view(*cand));
        let p = chars_of(cand.spec.path.as_str());
        let mut overlaps = false;
        let mut j: usize = 0;
        while j < kept.len()
            invariant
                j <= kept@.len(),
                prev == discovered_views(kept@),
                p@ == cand.spec.path@,
                overlaps == exists|m: int| 0 <= m < j && crate::plan::spec_paths_overlap(#[trigger] prev[m].0.2, p@),
            decreases kept@.len() - j,
        {
            assert(prev[j as int].0.2 == kept@[j as int].spec.path@);
            if crate::plan::paths_overlap(kept[j].spec.path.as_str(), cand.spec.path.as_str()) {
                overlaps = true;
            }
            j += 1;
        }
        if !overlaps {
            kept.push(DiscoveredUserDataCandidate { spec: copy_candidate(&cand.spec), score: cand.score });
            assert(discovered_views(kept@) =~= prev.push(ranked[k as int]));
        }
        k += 1;
    }
    let keys2 = keys_for(&kept, false);
    let order2 = crate::order::stable_order(keys2.as_slice());
    let ghost kv = discovered_views(kept@);
    let mut out: Vec<UserDataCandidateSpec> = Vec::new();
    let mut i: usize = 0;
    while i < order2.len()
        invariant
            i <= order2@.len(),
            order2@.len() == kept@.len(),
            forall|m: int| 0 <= m < order2@.len() ==> order2@[m] < kept@.len(),
            kv == discovered_views(kept@),
            out@.map_values(|c: UserDataCandidateSpec| candidate_view(c)) == in_rank_order(kv, order2@).take(i as int).map_values(
                |d: DiscoveredView| d.0,
            ),
        decreases order2@.len() - i,
    {
        let ghost before = out@.map_values(|c: UserDataCandidateSpec| candidate_view(c));
        out.push(copy_candidate(&kept[order2[i]].spec));
        assert(kv[order2@[i as int] as int] == discovered_view(kept@[order2@[i as int] as int]));
        assert(out@.map_values(|c: UserDataCandidateSpec| candidate_view(c)) =~= before.push(
            in_rank_order(kv, order2@)[i as int].0,
        ));
        i += 1;
        assert(in_rank_order(kv, order2@).take(i as int).map_values(|d: DiscoveredView| d.0) =~= in_rank_order(kv, order2@).take(
            i - 1,
        ).map_values(|d: DiscoveredView| d.0).push(in_rank_order(kv, order2@)[i - 1].0));
    }
    assert(in_rank_order(kv, order2@).take(i as int) =~= in_rank_order(kv, order2@));
    assert(kv == kept_of(candidates@, order1@));
    assert(crate::order::is_stable_order(rank_keys(discovered_views(candidates@)), order1@));
    assert(crate::order::is_stable_order(label_keys(kept_of(candidates@, order1@)), order2@));
    out
}

proof fn lemma_kept_pairwise_apart(s: Seq<DiscoveredView>, k: int)
    requires
        0 <= k,
    ensures
        forall|i: int, j: int| 0 <= i < j < keep_non_overlapping(s, k).len() ==> !crate::plan::spec_paths_overlap(
            (#[trigger] keep_non_overlapping(s, k)[i]).0.2,
            (#[trigger] keep_non_overlapping(s, k)[j]).0.2,
        ),
    decreases k,
{
    if k > 0 {
        lemma_kept_pairwise_apart(s, k - 1);
        let prev = keep_non_overlapping(s, k - 1);
        if !(exists|j: int| 0 <= j < prev.len() && crate::plan::spec_paths_overlap(#[trigger] prev[j].0.2, s[k - 1].0.2)) {
            let r = keep_non_overlapping(s, k);
            assert(r == prev.push(s[k - 1]));
            assert forall|i: int, j: int| 0 <= i < j < r.len() implies !crate::plan::spec_paths_overlap(
                (#[trigger] r[i]).0.2,
                (#[trigger] r[j]).0.2,
            ) by {
                if j == r.len() - 1 {
                    assert(r[i] == prev[i]);
                } else {
                    assert(r[i] == prev[i] && r[j] == prev[j]);
                }
            }
        }
    }
}

/// Reconciling the discovered candidates keeps no two whose paths overlap: of any two
/// candidates it returns, neither lies at or under the other. `o1` is the ranking and
/// `o2` the order by label that `reconcile_discovered_user_data_candidates` uses.
pub proof fn law_reconciled_candidates_do_not_overlap(
    candidates: Seq<DiscoveredUserDataCandidate>,
    o1: Seq<usize>,
    o2: Seq<usize>,
    a: int,
    b: int,
)
    requires
        crate::order::is_stable_order(rank_keys(discovered_views(candidates)), o1),
        crate::order::is_stable_order(label_keys(kept_of(candidates, o1)), o2),
        0 <= a < o2.len(),
        0 <= b < o2.len(),
        a != b,
    ensures
        !crate::plan::spec_paths_overlap(
            in_rank_order(kept_of(candidates, o1), o2)[a].0.2,
            in_rank_order(kept_of(candidates, o1), o2)[b].0.2,
        ),
{
    let kept = kept_of(candidates, o1);
    lemma_kept_pairwise_apart(in_rank_order(discovered_views(candidates), o1), candidates.len() as int);
    let x = o2[a] as int;
    let y = o2[b] as int;
    assert(x < kept.len() && y < kept.len() && x != y);
    let out = in_rank_order(kept, o2);
    assert(out[a] == kept[x] && out[b] == kept[y]);
    if x < y {
        assert(!crate::plan::spec_paths_overlap(kept[x].0.2, kept[y].0.2));
    } else {
        assert(!crate::plan::spec_paths_overlap(kept[y].0.2, kept[x].0.2));
    }
}

#[verifier::spinoff_prover]
proof fn lemma_kept_from_input(s: Seq<DiscoveredView>, k: int)
    requires
        0 <= k <= s.len(),
    ensures
        forall|j: int| 0 <= j < keep_non_overlapping(s, k).len() ==> exists|i: int| 0 <= i < k && #[trigger] keep_non_overlapping(s, k)[j]
            == s[i],
        forall|m: int| #![trigger s[m]] 0 <= m < k ==> (exists|j: int| 0 <= j < keep_non_overlapping(s, k).len() && #[trigger] keep_non_overlapping(s, k)[j]
            == s[m]) || (exists|j: int, i: int|
            0 <= j < keep_non_overlapping(s, k).len() && 0 <= i < m && #[trigger] keep_non_overlapping(s, k)[j] == #[trigger] s[i]
                && crate::plan::spec_paths_overlap(s[i].0.2, s[m].0.2)),
    decreases k,
{
    if k > 0 {
        lemma_kept_from_input(s, k - 1);
        let prev = keep_non_overlapping(s, k - 1);
        let cur = keep_non_overlapping(s, k);
        let pushed = !(exists|j: int| 0 <= j < prev.len() && crate::plan::spec_paths_overlap(#[trigger] prev[j].0.2, s[k - 1].0.2));
        if pushed {
            assert(cur == prev.push(s[k - 1]));
        } else {
            assert(cur == prev);
        }
        assert forall|j: int| 0 <= j < cur.len() implies exists|i: int| 0 <= i < k && #[trigger] cur[j] == s[i] by {
            if j < prev.len() {
                assert(cur[j] == prev[j]);
                let i = choose|i: int| 0 <= i < k - 1 && prev[j] == s[i];
                assert(cur[j] == s[i]);
            } else {
                assert(cur[j] == s[k - 1]);
            }
        }
        assert forall|m: int| #![trigger s[m]] 0 <= m < k implies (exists|j: int| 0 <= j < cur.len() && #[trigger] cur[j] == s[m]) || (exists|j: int, i: int|
            0 <= j < cur.len() && 0 <= i < m && #[trigger] cur[j] == #[trigger] s[i] && crate::plan::spec_paths_overlap(s[i].0.2, s[m].0.2)) by {
            if m < k - 1 {
                if exists|j: int| 0 <= j < prev.len() && #[trigger] prev[j] == s[m] {
                    let j = choose|j: int| 0 <= j < prev.len() && #[trigger] prev[j] == s[m];
                    assert(cur[j] == prev[j]);
                } else {
                    let (j, i) = choose|j: int, i: int|
                        0 <= j < prev.len() && 0 <= i < m && #[trigger] prev[j] == #[trigger] s[i] && crate::plan::spec_paths_overlap(s[i].0.2, s[m].0.2);
                    assert(cur[j] == prev[j]);
                }
            } else if pushed {
                assert(cur[prev.len() as int] == s[m]);
            } else {
                let j = choose|j: int| 0 <= j < prev.len() && crate::plan::spec_paths_overlap(#[trigger] prev[j].0.2, s[k - 1].0.2);
                let i = choose|i: int| 0 <= i < k - 1 && prev[j] == s[i];
                assert(cur[j] == s[i]);
            }
        }
    }
}

/// The ranked positions of the candidates kept among the first `k`.
pub open spec fn kept_positions(s: Seq<DiscoveredView>, k: int) -> Seq<int>
    decreases k,
{
    if k <= 0 {
        seq![]
    } else {
        let prev = keep_non_overlapping(s, k - 1);
        if exists|j: int| 0 <= j < prev.len() && crate::plan::spec_paths_overlap(#[trigger] prev[j].0.2, s[k - 1].0.2) {
            kept_positions(s, k - 1)
        } else {
            kept_positions(s, k - 1).push(k - 1)
        }
    }
}

#[verifier::spinoff_prover]
proof fn lemma_kept_positions(s: Seq<DiscoveredView>, k: int)
    requires
        0 <= k <= s.len(),
    ensures
        kept_positions(s, k).len() == keep_non_overlapping(s, k).len(),
        forall|j: int| 0 <= j < kept_positions(s, k).len() ==> 0 <= #[trigger] kept_positions(s, k)[j] < k
            && keep_non_overlapping(s, k)[j] == s[kept_positions(s, k)[j]],
        forall|i: int, j: int| 0 <= i < j < kept_positions(s, k).len() ==> #[trigger] kept_positions(s, k)[i]
            < #[trigger] kept_positions(s, k)[j],
    decreases k,
{
    if k > 0 {
        lemma_kept_positions(s, k - 1);
        let prev = keep_non_overlapping(s, k - 1);
        let pp = kept_positions(s, k - 1);
        let cur = keep_non_overlapping(s, k);
        let cp = kept_positions(s, k);
        let pushed = !(exists|j: int| 0 <= j < prev.len() && crate::plan::spec_paths_overlap(#[trigger] prev[j].0.2, s[k - 1].0.2));
        if pushed {
            assert(cur == prev.push(s[k - 1]));
            assert(cp == pp.push(k - 1));
            assert forall|j: int| 0 <= j < cp.len() implies 0 <= #[trigger] cp[j] < k && cur[j] == s[cp[j]] by {
                if j < pp.len() {
                    assert(cp[j] == pp[j] && cur[j] == prev[j]);
                }
            }
            assert forall|i: int, j: int| 0 <= i < j < cp.len() implies #[trigger] cp[i] < #[trigger] cp[j] by {
                assert(cp[i] == pp[i]);
                if j < pp.len() {
                    assert(cp[j] == pp[j]);
                }
            }
        } else {
            assert(cur == prev);
            assert(cp == pp);
        }
    }
}

/// `f` picks for each element of `out` a position of `input` that holds it, no
/// position twice: `out` is a sub-multiset of `input`.
pub open spec fn picks_from(out: Seq<DiscoveredView>, input: Seq<DiscoveredView>, f: Seq<int>) -> bool {
    &&& f.len() == out.len()
    &&& forall|p: int| 0 <= p < f.len() ==> 0 <= #[trigger] f[p] < input.len() && input[f[p]] == out[p]
    &&& forall|p: int, q: int| 0 <= p < q < f.len() ==> #[trigger] f[p] != #[trigger] f[q]
}

/// Picking distinct positions makes a sub-multiset: no element occurs in `out` more
/// often than in `input`.
proof fn lemma_picks_sub_multiset(out: Seq<DiscoveredView>, input: Seq<DiscoveredView>, f: Seq<int>)
    requires
        picks_from(out, input, f),
    ensures
        out.to_multiset().subset_of(input.to_multiset()),
    decreases out.len(),
{
    broadcast use vstd::multiset::group_multiset_axioms;
    broadcast use vstd::seq_lib::group_to_multiset_ensures;

    if out.len() == 0 {
        assert(out.to_multiset() =~= vstd::multiset::Multiset::<DiscoveredView>::empty());
    } else {
        let n = out.len() - 1;
        let i = f[n];
        let x = out[n];
        let out2 = out.drop_last();
        let input2 = input.remove(i);
        let f2 = Seq::new(n as nat, |p: int| if f[p] < i { f[p] } else { f[p] - 1 });
        assert forall|p: int| 0 <= p < f2.len() implies 0 <= #[trigger] f2[p] < input2.len() && input2[f2[p]] == out2[p] by {
            assert(f[p] != f[n]);
        }
        assert forall|p: int, q: int| 0 <= p < q < f2.len() implies #[trigger] f2[p] != #[trigger] f2[q] by {
            assert(f[p] != f[n] && f[q] != f[n] && f[p] != f[q]);
        }
        lemma_picks_sub_multiset(out2, input2, f2);
        assert(out2.push(x) =~= out);
        assert(input[i] == x);
        assert forall|v: DiscoveredView| #[trigger] out.to_multiset().count(v) <= input.to_multiset().count(v) by {
            assert(out.to_multiset() =~= out2.to_multiset().insert(x));
            assert(input2.to_multiset() =~= input.to_multiset().remove(x));
            assert(input.contains(x));
            assert(input.to_multiset().count(x) > 0);
            assert(out2.to_multiset().count(v) <= input2.to_multiset().count(v));
        }
    }
}

/// Reconciling only leaves candidates out: each candidate it returns is one of the
/// discovered candidates, score included, and none is returned more often than it
/// was discovered (the result is a sub-multiset of the input). `o1` is the ranking
/// and `o2` the order by label that `reconcile_discovered_user_data_candidates` uses.
pub proof fn law_reconciled_candidates_come_from_input(candidates: Seq<DiscoveredUserDataCandidate>, o1: Seq<usize>, o2: Seq<usize>)
    requires
        crate::order::is_stable_order(rank_keys(discovered_views(candidates)), o1),
        crate::order::is_stable_order(label_keys(kept_of(candidates, o1)), o2),
    ensures
        exists|f: Seq<int>| #[trigger] picks_from(in_rank_order(kept_of(candidates, o1), o2), discovered_views(candidates), f),
        in_rank_order(kept_of(candidates, o1), o2).to_multiset().subset_of(discovered_views(candidates).to_multiset()),
{
    let views = discovered_views(candidates);
    let ranked = in_rank_order(views, o1);
    let n = candidates.len() as int;
    let kept = kept_of(candidates, o1);
    let out = in_rank_order(kept, o2);
    lemma_kept_positions(ranked, n);
    let pos = kept_positions(ranked, n);
    let f = Seq::new(out.len(), |p: int| o1[pos[o2[p] as int]] as int);
    assert forall|p: int| 0 <= p < f.len() implies 0 <= #[trigger] f[p] < views.len() && views[f[p]] == out[p] by {
        let x = o2[p] as int;
        assert(0 <= x < kept.len());
        assert(0 <= pos[x] < n);
        assert(kept[x] == ranked[pos[x]]);
        assert(o1[pos[x]] < n);
    }
    assert forall|p: int, q: int| 0 <= p < q < f.len() implies #[trigger] f[p] != #[trigger] f[q] by {
        let x = o2[p] as int;
        let y = o2[q] as int;
        assert(x != y);
        assert(0 <= x < kept.len() && 0 <= y < kept.len());
        if x < y {
            assert(pos[x] < pos[y]);
        } else {
            assert(pos[y] < pos[x]);
        }
        assert(0 <= pos[x] < n && 0 <= pos[y] < n);
        assert(o1[pos[x]] != o1[pos[y]]);
    }
    assert(picks_from(out, views, f));
    lemma_picks_sub_multiset(out, views, f);
}

/// What reconciling keeps: the candidates come out by label, and every discovered
/// candidate is either kept or overlaps a kept candidate whose score is at least its
/// own. `o1` is the ranking and `o2` the order by label that
/// `reconcile_discovered_user_data_candidates` uses.
pub proof fn law_reconciled_candidates_by_label_and_dominating(
    candidates: Seq<DiscoveredUserDataCandidate>,
    o1: Seq<usize>,
    o2: Seq<usize>,
    a: int,
    b: int,
    x: int,
)
    requires
        crate::order::is_stable_order(rank_keys(discovered_views(candidates)), o1),
        crate::order::is_stable_order(label_keys(kept_of(candidates, o1)), o2),
        0 <= a < b < o2.len(),
        0 <= x < candidates.len(),
    ensures
        ({
            let out = in_rank_order(kept_of(candidates, o1), o2);
            let c = discovered_views(candidates)[x];
            &&& !crate::order::text_lt(out[b].0.1, out[a].0.1)
            &&& exists|p: int| 0 <= p < out.len() && (#[trigger] out[p] == c || (crate::plan::spec_paths_overlap(out[p].0.2, c.0.2) && out[p].1 >= c.1))
        }),
{
    let views = discovered_views(candidates);
    let ranked = in_rank_order(views, o1);
    let kept = kept_of(candidates, o1);
    let out = in_rank_order(kept, o2);
    let c = views[x];
    // label order
    let ka = o2[a];
    let kb = o2[b];
    assert(crate::order::ranks_before(label_keys(kept), ka, kb));
    assert(label_keys(kept)[ka as int] == (0u64, 0u64, kept[ka as int].0.1));
    assert(label_keys(kept)[kb as int] == (0u64, 0u64, kept[kb as int].0.1));
    assert(out[a] == kept[ka as int] && out[b] == kept[kb as int]);
    if crate::order::text_lt(kept[ka as int].0.1, kept[kb as int].0.1) {
        crate::order::lemma_text_lt_asymmetric(kept[ka as int].0.1, kept[kb as int].0.1);
    } else {
        crate::order::lemma_text_lt_irreflexive(kept[ka as int].0.1);
    }
    // dominance
    crate::order::lemma_permutation_covers(o1, rank_keys(views).len(), x);
    let m = choose|m: int| 0 <= m < o1.len() && o1[m] == x;
    assert(ranked[m] == c);
    lemma_kept_from_input(ranked, candidates.len() as int);
    let j: int;
    if exists|jj: int| 0 <= jj < kept.len() && #[trigger] kept[jj] == ranked[m] {
        j = choose|jj: int| 0 <= jj < kept.len() && #[trigger] kept[jj] == ranked[m];
        assert(kept[j] == c);
    } else {
        let (jj, i) = choose|jj: int, i: int|
            0 <= jj < kept.len() && 0 <= i < m && #[trigger] kept[jj] == #[trigger] ranked[i] && crate::plan::spec_paths_overlap(ranked[i].0.2, ranked[m].0.2);
        j = jj;
        assert(crate::order::ranks_before(rank_keys(views), o1[i], o1[m]));
        assert(rank_keys(views)[o1[i] as int] == rank_key(views[o1[i] as int]));
        assert(rank_keys(views)[o1[m] as int] == rank_key(views[o1[m] as int]));
        assert(ranked[i] == views[o1[i] as int]);
        assert(kept[j].1 >= c.1);
        assert(crate::plan::spec_paths_overlap(kept[j].0.2, c.0.2));
    }
    crate::order::lemma_permutation_covers(o2, label_keys(kept).len(), j);
    let p = choose|p: int| 0 <= p < o2.len() && o2[p] == j;
    assert(out[p] == kept[j]);
}

} // verus!

verus! {

/// The path keys of the excluded scan roots.
pub fn excluded_keys(excluded_scan_roots: &[String]) -> (r: Vec<String>)
    ensures
        key_views(r@) == key_views(excluded_scan_roots@).map_values(|p: Seq<char>| crate::plan::spec_path_key(p)),
{
    let mut out: Vec<String> = Vec::new();
    let mut i: usize = 0;
    while i < excluded_scan_roots.len()
        invariant
            i <= excluded_scan_roots@.len(),
            key_views(out@) == key_views(excluded_scan_roots@).take(i as int).map_values(|p: Seq<char>| crate::plan::spec_path_key(p)),
        decreases excluded_scan_roots@.len() - i,
    {
        let ghost before = key_views(out@);
        out.push(crate::plan::path_key(excluded_scan_roots[i].as_str()));
        assert(key_views(out@) =~= before.push(crate::plan::spec_path_key(excluded_scan_roots@[i as int]@)));
        i += 1;
        assert(key_views(out@) =~= key_views(excluded_scan_roots@).take(i as int).map_values(
            |p: Seq<char>| crate::plan::spec_path_key(p),
        ));
    }
    assert(key_views(excluded_scan_roots@).take(i as int) =~= key_views(excluded_scan_roots@));
    out
}

/// Whether a scan root is searched for personal data: it exists, is a folder and is
/// not excluded.
pub fn scan_root_is_searched(root: &str, exists: bool, is_dir: bool, excluded_keys: &[String]) -> (r: bool)
    ensures
        r == (exists && is_dir && !crate::plan::spec_is_path_excluded(root@, key_views(excluded_keys@))),
{
    exists && is_dir && !crate::plan::is_path_excluded(root, excluded_keys)
}

/// What to do with an entry of the walk of a scan root.
#[derive(Debug, Clone, Copy, PartialEq, Eq, Structural)]
pub enum DiscoveryStep {
    /// Leave the entry; the walk goes on as the action says.
    Skip(WalkAction),
    /// The entry is a file at the top of the root: classify it.
    ClassifyFile,
    /// The entry is a folder: look into it and evaluate it.
    EvaluateDirectory,
}

/// What to do with an entry of the walk (two levels deep) of a scan root: excluded
/// paths, system folders under a drive root and noise are skipped; files are
/// classified at the top level only; folders are evaluated.
pub open spec fn spec_discovery_step(root: Seq<char>, entry: WalkEntry, excluded_keys: Seq<Seq<char>>) -> DiscoveryStep {
    if crate::plan::spec_is_path_excluded(entry.path@, excluded_keys) {
        DiscoveryStep::Skip(skip_action(entry.is_dir))
    } else if entry.is_dir && crate::plan::spec_should_skip_portable_search_dir(root, entry.path@) {
        DiscoveryStep::Skip(WalkAction::SkipDir)
    } else if spec_is_known_noise(entry.path@) {
        DiscoveryStep::Skip(skip_action(entry.is_dir))
    } else if entry.is_file {
        if entry.depth == 1 {
            DiscoveryStep::ClassifyFile
        } else {
            DiscoveryStep::Skip(WalkAction::Continue)
        }
    } else if !entry.is_dir {
        DiscoveryStep::Skip(WalkAction::Continue)
    } else {
        DiscoveryStep::EvaluateDirectory
    }
}

pub fn discovery_step(root: &str, entry: &WalkEntry, excluded_keys: &[String]) -> (r: DiscoveryStep)
    ensures
        r == spec_discovery_step(root@, *entry, key_views(excluded_keys@)),
{
    if crate::plan::is_path_excluded(entry.path.as_str(), excluded_keys) {
        return DiscoveryStep::Skip(
            if entry.is_dir {
                WalkAction::SkipDir
            } else {
                WalkAction::Continue
            },
        );
    }
    if entry.is_dir && crate::plan::should_skip_portable_search_dir(root, entry.path.as_str()) {
        return DiscoveryStep::Skip(WalkAction::SkipDir);
    }
    if crate::plan::is_known_noise(entry.path.as_str()) {
        return DiscoveryStep::Skip(
            if entry.is_dir {
                WalkAction::SkipDir
            } else {
                WalkAction::Continue
            },
        );
    }
    if entry.is_file {
        return if entry.depth == 1 {
            DiscoveryStep::ClassifyFile
        } else {
            DiscoveryStep::Skip(WalkAction::Continue)
        };
    }
    if !entry.is_dir {
        return DiscoveryStep::Skip(WalkAction::Continue);
    }
    DiscoveryStep::EvaluateDirectory
}

/// The candidates found under scan roots so far, each path key once.
pub struct ScanRootDiscovery {
    discovered: Vec<DiscoveredUserDataCandidate>,
    seen: Vec<String>,
}

impl ScanRootDiscovery {
    /// The keys seen are the path keys of the candidates found. The fields are
    /// private, so only this type's methods keep it.
    pub closed spec fn wf(self) -> bool {
        &&& self.seen@.len() == self.discovered@.len()
        &&& forall|j: int| 0 <= j < self.seen@.len() ==> #[trigger] self.seen@[j]@ == crate::plan::spec_path_key(
            self.discovered@[j].spec.path@,
        )
    }

    /// The candidates found so far, in order.
    pub closed spec fn found(self) -> Seq<DiscoveredView> {
        discovered_views(self.discovered@)
    }

    pub fn new() -> (r: Self)
        ensures
            r.wf(),
            r.found() == Seq::<DiscoveredView>::empty(),
    {
        let r = ScanRootDiscovery { discovered: Vec::new(), seen: Vec::new() };
        assert(r.found() =~= Seq::<DiscoveredView>::empty());
        r
    }

    fn add(&mut self, c: UserDataCandidateSpec, score: usize)
        requires
            old(self).wf(),
        ensures
            final(self).wf(),
            final(self).found() == if exists|j: int| 0 <= j < old(self).found().len() && crate::plan::spec_path_key(
                #[trigger] old(self).found()[j].0.2,
            ) == crate::plan::spec_path_key(c.path@) {
                old(self).found()
            } else {
                old(self).found().push((candidate_view(c), score))
            },
    {
        let ghost f = self.found();
        let key = crate::plan::path_key(c.path.as_str());
        if strings_contain(self.seen.as_slice(), key.as_str()) {
            proof {
                let j = choose|j: int| 0 <= j < key_views(self.seen@).len() && key_views(self.seen@)[j] == key@;
                assert(self.seen@[j]@ == key@);
                assert(f[j].0.2 == self.discovered@[j].spec.path@);
            }
            return;
        }
        proof {
            assert forall|j: int| 0 <= j < f.len() implies crate::plan::spec_path_key(#[trigger] f[j].0.2) != crate::plan::spec_path_key(
                c.path@,
            ) by {
                assert(f[j].0.2 == self.discovered@[j].spec.path@);
                assert(key_views(self.seen@)[j] == self.seen@[j]@);
            }
        }
        let ghost cv = candidate_view(c);
        self.discovered.push(DiscoveredUserDataCandidate { spec: c, score });
        self.seen.push(key);
        assert(self.found() =~= f.push((cv, score)));
    }

    /// Classifies a file at the top of a scan root (`len` is its length, `None` where
    /// it could not be read) and keeps the candidate it makes, unless its path was
    /// seen before.
    pub fn add_file(&mut self, path: &str, len: Option<u64>)
        requires
            old(self).wf(),
        ensures
            final(self).wf(),
            final(self).found() == match spec_classify_scan_root_user_file_candidate(path@, len) {
                Some(c) => if exists|j: int| 0 <= j < old(self).found().len() && crate::plan::spec_path_key(
                    #[trigger] old(self).found()[j].0.2,
                ) == crate::plan::spec_path_key(path@) {
                    old(self).found()
                } else {
                    old(self).found().push((c, spec_user_data_file_candidate_score(path@, len) as usize))
                },
                None => old(self).found(),
            },
    {
        match classify_scan_root_user_file_candidate(path, len) {
            Some(c) => {
                let score = user_data_file_candidate_score(path, len);
                self.add(c, score);
            },
            None => {},
        }
    }

    /// Evaluates a folder of a scan root from what a look into it found, and keeps
    /// the candidate it makes, unless its path was seen before.
    pub fn add_directory(&mut self, path: &str, evidence: &UserDataDirectoryEvidence)
        requires
            old(self).wf(),
        ensures
            final(self).wf(),
            final(self).found() == match spec_evaluate_scan_root_user_directory_candidate(path@, *evidence) {
                Some((c, s)) => if exists|j: int| 0 <= j < old(self).found().len() && crate::plan::spec_path_key(
                    #[trigger] old(self).found()[j].0.2,
                ) == crate::plan::spec_path_key(path@) {
                    old(self).found()
                } else {
                    old(self).found().push((c, s as usize))
                },
                None => old(self).found(),
            },
    {
        match evaluate_scan_root_user_directory_candidate(path, evidence) {
            Some((c, score)) => {
                self.add(c, score);
            },
            None => {},
        }
    }

    /// The candidates found, with overlaps reconciled.
    pub fn finish(self) -> (r: Vec<UserDataCandidateSpec>)
        ensures
            exists|o1: Seq<usize>, o2: Seq<usize>|
                #![trigger crate::order::is_stable_order(rank_keys(self.found()), o1), crate::order::is_stable_order(label_keys(keep_non_overlapping(in_rank_order(self.found(), o1), self.found().len() as int)), o2)]
                crate::order::is_stable_order(rank_keys(self.found()), o1) && crate::order::is_stable_order(
                    label_keys(keep_non_overlapping(in_rank_order(self.found(), o1), self.found().len() as int)),
                    o2,
                ) && r@.map_values(|c: UserDataCandidateSpec| candidate_view(c)) == in_rank_order(
                    keep_non_overlapping(in_rank_order(self.found(), o1), self.found().len() as int),
                    o2,
                ).map_values(|d: DiscoveredView| d.0),
    {
        let ghost f = self.found();
        let r = reconcile_discovered_user_data_candidates(self.discovered);
        r
    }
}

/// The measured personal-data roots among the first `k` candidates: those that exist,
/// each path key once, with their stats.
pub open spec fn roots_from(
    cands: Seq<(Seq<char>, Seq<char>, Seq<char>, Seq<char>)>,
    exists: Seq<bool>,
    stats: Seq<crate::models::PathStats>,
    k: int,
) -> Seq<((Seq<char>, Seq<char>, Seq<char>, Seq<char>), crate::models::PathStats)>
    decreases k,
{
    if k <= 0 {
        seq![]
    } else {
        let prev = roots_from(cands, exists, stats, k - 1);
        if exists[k - 1] && !(exists|j: int| 0 <= j < prev.len() && crate::plan::spec_path_key(#[trigger] prev[j].0.2)
            == crate::plan::spec_path_key(cands[k - 1].2)) {
            prev.push((cands[k - 1], stats[k - 1]))
        } else {
            prev
        }
    }
}

/// No two personal-data roots of a scan share a path key: of the roots taken from the
/// first `k` candidates, any two have different keys.
pub proof fn law_user_data_roots_distinct(
    cands: Seq<(Seq<char>, Seq<char>, Seq<char>, Seq<char>)>,
    exists: Seq<bool>,
    stats: Seq<crate::models::PathStats>,
    k: int,
    i: int,
    j: int,
)
    requires
        0 <= i < j < roots_from(cands, exists, stats, k).len(),
    ensures
        crate::plan::spec_path_key(roots_from(cands, exists, stats, k)[i].0.2) != crate::plan::spec_path_key(
            roots_from(cands, exists, stats, k)[j].0.2,
        ),
    decreases k,
{
    if k > 0 {
        let prev = roots_from(cands, exists, stats, k - 1);
        if j < prev.len() {
            law_user_data_roots_distinct(cands, exists, stats, k - 1, i, j);
        } else {
            assert(roots_from(cands, exists, stats, k)[i] == prev[i]);
        }
    }
}

pub open spec fn root_view(r: crate::models::UserDataRoot) -> ((Seq<char>, Seq<char>, Seq<char>, Seq<char>), crate::models::PathStats) {
    ((r.category@, r.label@, r.path@, r.reason@), r.stats)
}

/// The personal-data roots of a scan: each candidate whose path exists
/// (`exists[i]`), each path key once, with its stats (`stats[i]`, measured by the
/// caller).
#[verifier::spinoff_prover]
pub fn user_data_roots_from(candidates: &[UserDataCandidateSpec], exists: &[bool], stats: &[crate::models::PathStats]) -> (r: Vec<crate::models::UserDataRoot>)
    requires
        exists.len() == candidates.len(),
        stats.len() == candidates.len(),
    ensures
        r@.map_values(|x: crate::models::UserDataRoot| root_view(x)) == roots_from(
            candidates@.map_values(|c: UserDataCandidateSpec| candidate_view(c)),
            exists@,
            stats@,
            candidates.len() as int,
        ),
{
    let ghost cv = candidates@.map_values(|c: UserDataCandidateSpec| candidate_view(c));
    let mut out: Vec<crate::models::UserDataRoot> = Vec::new();
    let mut keys: Vec<String> = Vec::new();
    let mut i: usize = 0;
    while i < candidates.len()
        invariant
            i <= candidates.len() == exists.len() == stats.len(),
            cv == candidates@.map_values(|c: UserDataCandidateSpec| candidate_view(c)),
            out@.map_values(|x: crate::models::UserDataRoot| root_view(x)) == roots_from(cv, exists@, stats@, i as int),
            keys@.len() == out@.len(),
            forall|j: int| 0 <= j < keys@.len() ==> #[trigger] keys@[j]@ == crate::plan::spec_path_key(out@[j].path@),
        decreases candidates.len() - i,
    {
        let ghost prev = out@.map_values(|x: crate::models::UserDataRoot| root_view(x));
        let c = &candidates[i];
        assert(cv[i as int] == candidate_view(*c));
        if exists[i] {
            let key = crate::plan::path_key(c.path.as_str());
            if strings_contain(keys.as_slice(), key.as_str()) {
                proof {
                    let j = choose|j: int| 0 <= j < key_views(keys@).len() && key_views(keys@)[j] == key@;
                    assert(keys@[j]@ == key@);
                    assert(prev[j].0.2 == out@[j].path@);
                }
            } else {
                proof {
                    assert forall|j: int| 0 <= j < prev.len() implies crate::plan::spec_path_key(#[trigger] prev[j].0.2)
                        != crate::plan::spec_path_key(cv[i as int].2) by {
                        assert(prev[j].0.2 == out@[j].path@);
                        assert(key_views(keys@)[j] == keys@[j]@);
                    }
                }
                out.push(
                    crate::models::UserDataRoot {
                        category: c.category.clone(),
                        label: c.label.clone(),
                        path: c.path.clone(),
                        reason: c.reason.clone(),
                        stats: stats[i],
                    },
                );
                keys.push(key);
                assert(out@.map_values(|x: crate::models::UserDataRoot| root_view(x)) =~= prev.push((cv[i as int], stats@[i as int])));
            }
        }
        i += 1;
    }
    out
}

} // verus!
