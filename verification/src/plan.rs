//! Classification rules for backup planning: which paths are noise, which names
//! are meaningful, which executables look like portable applications.
use vstd::prelude::*;
use crate::names::{
    is_sdk_component_name_exec, is_app_data_directory_name_exec, is_app_data_exact_file_name,
    is_app_data_exact_file_name_exec, is_app_data_directory_name, is_avd_marker_name,
    is_avd_marker_name_exec, is_curated_portable_segment, is_curated_portable_segment_exec,
    is_development_marker_directory, is_development_marker_directory_exec,
    is_development_marker_file, is_development_marker_file_exec, is_distlib_launcher_stem,
    is_distlib_launcher_stem_exec, is_generic_container, is_generic_container_exec,
    is_generic_launcher, is_generic_launcher_exec, is_generic_user_container,
    is_generic_user_container_exec, is_noise_name, is_noise_name_exec,
    is_portable_support_directory, is_portable_support_directory_exec,
    is_python_toolchain_segment, is_python_toolchain_segment_exec, is_python_wrapper_exact,
    is_python_wrapper_exact_exec, is_sdk_component_name, is_search_skip_directory,
    is_search_skip_directory_exec,
};
use crate::text::{
    key_views,
    chars_of, contains, contains_str, ends_with, lower, lower_chars, starts_with,
    starts_with_str, string_from, to_lowercase, trim, trim_chars, unicode_lowercase,
};
use crate::winpath::{
    body_segments, body_segments_exec, name_or_empty, name_or_empty_exec, path_starts_with, path_starts_with_exec,
    segments, segments_exec, views, components,
};

verus! {

/// The key by which a path is selected and deduplicated: its text in Unicode lowercase.
pub open spec fn spec_path_key(path: Seq<char>) -> Seq<char> {
    unicode_lowercase(path)
}

pub fn path_key(path: &str) -> (r: String)
    ensures
        r@ == spec_path_key(path@),
{
    to_lowercase(path)
}

/// The file name of a path in ASCII lowercase, or empty text.
pub open spec fn lower_name(p: Seq<char>) -> Seq<char> {
    lower(name_or_empty(p))
}

fn lower_name_exec(p: &[char]) -> (r: Vec<char>)
    ensures
        r@ == lower_name(p@),
{
    let n = name_or_empty_exec(p);
    lower_chars(n.as_slice())
}

/// A name trimmed of white space, in ASCII lowercase.
pub open spec fn trim_lower(n: Seq<char>) -> Seq<char> {
    lower(trim(n))
}

fn trim_lower_exec(n: &[char]) -> (r: Vec<char>)
    ensures
        r@ == trim_lower(n@),
{
    let t = trim_chars(n);
    lower_chars(t.as_slice())
}

pub open spec fn spec_is_known_noise(path: Seq<char>) -> bool {
    is_noise_name(lower_name(path))
}

/// Whether the last component names a cache, temp, log or build folder.
pub fn is_known_noise(path: &str) -> (r: bool)
    ensures
        r == spec_is_known_noise(path@),
{
    let p = chars_of(path);
    let leaf = lower_name_exec(p.as_slice());
    is_noise_name_exec(leaf.as_slice())
}

/// Whether a path is left out of every walk.
pub fn should_exclude_path(path: &str) -> (r: bool)
    ensures
        r == spec_is_known_noise(path@),
{
    is_known_noise(path)
}

pub open spec fn spec_is_system_install_path(path: Seq<char>) -> bool {
    ||| path_starts_with(path, "C:\\Program Files"@)
    ||| path_starts_with(path, "C:\\Program Files (x86)"@)
    ||| path_starts_with(path, "C:\\ProgramData\\Microsoft\\Windows\\Start Menu"@)
    ||| path_starts_with(path, "C:\\Windows"@)
    ||| path_starts_with(path, "C:\\Program Files\\WindowsApps"@)
}

fn path_starts_with_str(p: &[char], base: &str) -> (r: bool)
    ensures
        r == path_starts_with(p@, base@),
{
    let b = chars_of(base);
    path_starts_with_exec(p, b.as_slice())
}

/// Whether a path lies under a system installation folder.
pub fn is_system_install_path(path: &str) -> (r: bool)
    ensures
        r == spec_is_system_install_path(path@),
{
    let p = chars_of(path);
    let p = p.as_slice();
    path_starts_with_str(p, "C:\\Program Files") || path_starts_with_str(p, "C:\\Program Files (x86)")
        || path_starts_with_str(p, "C:\\ProgramData\\Microsoft\\Windows\\Start Menu")
        || path_starts_with_str(p, "C:\\Windows") || path_starts_with_str(
        p,
        "C:\\Program Files\\WindowsApps",
    )
}

/// A drive root such as `D:\`: three bytes of text that end in `:\`.
pub open spec fn spec_is_drive_root(path: Seq<char>) -> bool {
    path.len() == 3 && (path[0] as u32) < 128 && path[1] == ':' && path[2] == '\\'
}

pub fn is_drive_root(path: &str) -> (r: bool)
    ensures
        r == spec_is_drive_root(path@),
{
    let p = chars_of(path);
    p.len() == 3 && (p[0] as u32) < 128 && p[1] == ':' && p[2] == '\\'
}

pub open spec fn spec_should_skip_portable_search_dir(search_root: Seq<char>, candidate: Seq<char>) -> bool {
    &&& spec_is_drive_root(search_root)
    &&& path_starts_with(candidate, search_root)
    &&& components(candidate).len() == components(search_root).len() + 1
    &&& is_search_skip_directory(lower_name(candidate))
}

/// Whether `candidate` is a system folder directly under the drive root `search_root`.
pub fn should_skip_portable_search_dir(search_root: &str, candidate: &str) -> (r: bool)
    ensures
        r == spec_should_skip_portable_search_dir(search_root@, candidate@),
{
    if !is_drive_root(search_root) {
        return false;
    }
    let root = chars_of(search_root);
    let cand = chars_of(candidate);
    if !path_starts_with_exec(cand.as_slice(), root.as_slice()) {
        return false;
    }
    let rs = crate::winpath::components_exec(root.as_slice());
    let cs = crate::winpath::components_exec(cand.as_slice());
    assert(views(rs@).len() == rs@.len());
    assert(views(cs@).len() == cs@.len());
    if rs.len() >= cs.len() || cs.len() - rs.len() != 1 {
        return false;
    }
    let leaf = lower_name_exec(cand.as_slice());
    is_search_skip_directory_exec(leaf.as_slice())
}

/// `key` equals `excluded` or lies under it.
pub open spec fn key_under(key: Seq<char>, excluded: Seq<char>) -> bool {
    key == excluded || starts_with(key, excluded + seq!['\\'])
}

pub open spec fn spec_is_path_excluded(path: Seq<char>, excluded_keys: Seq<Seq<char>>) -> bool {
    exists|i: int| 0 <= i < excluded_keys.len() && key_under(spec_path_key(path), #[trigger] excluded_keys[i])
}

fn key_under_exec(key: &[char], excluded: &[char]) -> (r: bool)
    ensures
        r == key_under(key@, excluded@),
{
    if crate::text::chars_eq(key, excluded) {
        return true;
    }
    let mut with_sep: Vec<char> = Vec::new();
    crate::text::extend_chars(&mut with_sep, excluded);
    with_sep.push('\\');
    assert(with_sep@ =~= excluded@ + seq!['\\']);
    crate::text::starts_with_chars(key, with_sep.as_slice())
}

/// Whether the key of `path` is one of the excluded keys or lies under one.
pub fn is_path_excluded(path: &str, excluded_keys: &[String]) -> (r: bool)
    ensures
        r == spec_is_path_excluded(path@, key_views(excluded_keys@)),
{
    let key = path_key(path);
    let kc = chars_of(key.as_str());
    let mut i: usize = 0;
    while i < excluded_keys.len()
        invariant
            i <= excluded_keys.len(),
            kc@ == spec_path_key(path@),
            forall|j: int| 0 <= j < i ==> !key_under(kc@, #[trigger] key_views(excluded_keys@)[j]),
        decreases excluded_keys.len() - i,
    {
        let ex = chars_of(excluded_keys[i].as_str());
        if key_under_exec(kc.as_slice(), ex.as_slice()) {
            assert(key_views(excluded_keys@)[i as int] == ex@);
            return true;
        }
        i += 1;
    }
    false
}

/// Windows path overlap: equal, or one lies under the other.
pub open spec fn spec_paths_overlap(left: Seq<char>, right: Seq<char>) -> bool {
    crate::winpath::path_eq(left, right) || path_starts_with(left, right) || path_starts_with(right, left)
}

pub fn paths_overlap(left: &str, right: &str) -> (r: bool)
    ensures
        r == spec_paths_overlap(left@, right@),
{
    let l = chars_of(left);
    let rr = chars_of(right);
    crate::winpath::path_eq_exec(l.as_slice(), rr.as_slice()) || path_starts_with_exec(
        l.as_slice(),
        rr.as_slice(),
    ) || path_starts_with_exec(rr.as_slice(), l.as_slice())
}

pub open spec fn spec_is_installed_location(path: Seq<char>, installed: Seq<Seq<char>>) -> bool {
    spec_is_system_install_path(path) || exists|i: int|
        0 <= i < installed.len() && spec_paths_overlap(path, #[trigger] installed[i])
}

/// Whether a path is a system install path or overlaps the install folder of an installed application.
pub fn is_installed_location(path: &str, installed_locations: &[String]) -> (r: bool)
    ensures
        r == spec_is_installed_location(path@, key_views(installed_locations@)),
{
    if is_system_install_path(path) {
        return true;
    }
    let mut i: usize = 0;
    while i < installed_locations.len()
        invariant
            i <= installed_locations.len(),
            forall|j: int| 0 <= j < i ==> !spec_paths_overlap(path@, #[trigger] key_views(installed_locations@)[j]),
        decreases installed_locations.len() - i,
    {
        if paths_overlap(path, installed_locations[i].as_str()) {
            assert(key_views(installed_locations@)[i as int] == installed_locations@[i as int]@);
            return true;
        }
        i += 1;
    }
    false
}

} // verus!

verus! {

pub open spec fn spec_is_android_avd_marker_file_name(file_name: Seq<char>) -> bool {
    is_avd_marker_name(trim_lower(file_name))
}

/// Whether a file name marks an Android virtual device.
pub fn is_android_avd_marker_file_name(file_name: &str) -> (r: bool)
    ensures
        r == spec_is_android_avd_marker_file_name(file_name@),
{
    let n = chars_of(file_name);
    let l = trim_lower_exec(n.as_slice());
    is_avd_marker_name_exec(l.as_slice())
}

pub open spec fn spec_is_android_sdk_component_directory_name(name: Seq<char>) -> bool {
    is_sdk_component_name(trim_lower(name))
}

/// Whether a folder name is one of the components of an Android SDK.
pub fn is_android_sdk_component_directory_name(directory_name: &str) -> (r: bool)
    ensures
        r == spec_is_android_sdk_component_directory_name(directory_name@),
{
    let n = chars_of(directory_name);
    let l = trim_lower_exec(n.as_slice());
    crate::names::is_sdk_component_name_exec(l.as_slice())
}

pub open spec fn spec_is_generic_user_container_name(name: Seq<char>) -> bool {
    is_generic_user_container(trim_lower(name))
}

/// Whether a folder name is too generic to label personal data.
pub fn is_generic_user_container_name(directory_name: &str) -> (r: bool)
    ensures
        r == spec_is_generic_user_container_name(directory_name@),
{
    let n = chars_of(directory_name);
    let l = trim_lower_exec(n.as_slice());
    is_generic_user_container_exec(l.as_slice())
}

pub open spec fn spec_is_probable_app_data_directory_name(name: Seq<char>) -> bool {
    is_app_data_directory_name(trim_lower(name))
}

/// Whether a folder name is typical of application data.
pub fn is_probable_app_data_directory_name(directory_name: &str) -> (r: bool)
    ensures
        r == spec_is_probable_app_data_directory_name(directory_name@),
{
    let n = chars_of(directory_name);
    let l = trim_lower_exec(n.as_slice());
    is_app_data_directory_name_exec(l.as_slice())
}

pub open spec fn spec_is_probable_app_data_file_name(name: Seq<char>) -> bool {
    let l = trim_lower(name);
    ||| contains(l, "config"@)
    ||| contains(l, "session"@)
    ||| contains(l, "key_info"@)
    ||| contains(l, "backup"@)
    ||| is_app_data_exact_file_name(l)
}

/// Whether a file name is typical of application data.
pub fn is_probable_app_data_file_name(file_name: &str) -> (r: bool)
    ensures
        r == spec_is_probable_app_data_file_name(file_name@),
{
    let n = chars_of(file_name);
    let l = trim_lower_exec(n.as_slice());
    let l = l.as_slice();
    contains_str(l, "config") || contains_str(l, "session") || contains_str(l, "key_info")
        || contains_str(l, "backup") || is_app_data_exact_file_name_exec(l)
}

pub open spec fn spec_is_generic_container_name(value: Seq<char>) -> bool {
    is_generic_container(trim_lower(value))
}

/// Whether a name is too generic to name an application (`bin`, `x64`, ...).
pub fn is_generic_container_name(value: &[char]) -> (r: bool)
    ensures
        r == spec_is_generic_container_name(value@),
{
    let l = trim_lower_exec(value);
    is_generic_container_exec(l.as_slice())
}

pub open spec fn spec_is_generic_launcher_name(value: Seq<char>) -> bool {
    is_generic_launcher(trim_lower(value))
}

/// Whether a name is that of a generic launcher (`launcher`, `start`, ...).
pub fn is_generic_launcher_name(value: &[char]) -> (r: bool)
    ensures
        r == spec_is_generic_launcher_name(value@),
{
    let l = trim_lower_exec(value);
    is_generic_launcher_exec(l.as_slice())
}

/// Characters allowed in a version-like name besides white space.
pub open spec fn is_version_char(c: char) -> bool {
    ('0' <= c && c <= '9') || c == '.' || c == '_' || c == '-' || c == '+' || c == 'v' || c == 'V'
}

pub open spec fn spec_is_version_like_name(value: Seq<char>) -> bool {
    &&& exists|i: int| 0 <= i < value.len() && !crate::text::is_ws(#[trigger] value[i])
    &&& forall|i: int| 0 <= i < value.len() && !crate::text::is_ws(#[trigger] value[i]) ==> is_version_char(value[i])
}

/// Whether a name, white space aside, is made of digits and version punctuation only.
pub fn is_version_like_name(value: &[char]) -> (r: bool)
    ensures
        r == spec_is_version_like_name(value@),
{
    let mut seen = false;
    let mut i: usize = 0;
    while i < value.len()
        invariant
            i <= value.len(),
            seen == exists|j: int| 0 <= j < i && !crate::text::is_ws(#[trigger] value@[j]),
            forall|j: int| 0 <= j < i && !crate::text::is_ws(#[trigger] value@[j]) ==> is_version_char(value@[j]),
        decreases value.len() - i,
    {
        let c = value[i];
        if !crate::text::is_ws_exec(c) {
            let ok = ('0' <= c && c <= '9') || c == '.' || c == '_' || c == '-' || c == '+' || c == 'v'
                || c == 'V';
            if !ok {
                return false;
            }
            seen = true;
        }
        i += 1;
    }
    seen
}

pub open spec fn spec_is_weak_portable_candidate_name(value: Seq<char>) -> bool {
    spec_is_version_like_name(value) || spec_is_generic_container_name(value) || spec_is_generic_launcher_name(value)
}

/// Whether a name is too weak to name a portable application.
pub fn is_weak_portable_candidate_name(value: &[char]) -> (r: bool)
    ensures
        r == spec_is_weak_portable_candidate_name(value@),
{
    is_version_like_name(value) || is_generic_container_name(value) || is_generic_launcher_name(value)
}

/// CJK ideograph ranges counted as meaningful name characters.
pub open spec fn spec_is_cjk_char(ch: char) -> bool {
    let c = ch as u32;
    (0x3400 <= c <= 0x4DBF) || (0x4E00 <= c <= 0x9FFF) || (0xF900 <= c <= 0xFAFF) || (0x20000 <= c <= 0x2CEAF)
}

pub fn is_cjk_char(ch: char) -> (r: bool)
    ensures
        r == spec_is_cjk_char(ch),
{
    let c = ch as u32;
    (0x3400 <= c && c <= 0x4DBF) || (0x4E00 <= c && c <= 0x9FFF) || (0xF900 <= c && c <= 0xFAFF) || (
    0x20000 <= c && c <= 0x2CEAF)
}

pub open spec fn spec_has_meaningful_name_chars(value: Seq<char>) -> bool {
    exists|i: int| 0 <= i < value.len() && (crate::text::unicode_alphabetic(#[trigger] value[i]) || spec_is_cjk_char(value[i]))
}

/// Whether a name holds at least one letter or CJK ideograph.
pub fn has_meaningful_name_chars(value: &[char]) -> (r: bool)
    ensures
        r == spec_has_meaningful_name_chars(value@),
{
    let mut i: usize = 0;
    while i < value.len()
        invariant
            i <= value.len(),
            forall|j: int| 0 <= j < i ==> !(crate::text::unicode_alphabetic(#[trigger] value@[j]) || spec_is_cjk_char(value@[j])),
        decreases value.len() - i,
    {
        if crate::text::char_is_alphabetic(value[i]) || is_cjk_char(value[i]) {
            return true;
        }
        i += 1;
    }
    false
}

/// The trimmed display name, where it is a meaningful application name.
pub open spec fn spec_normalize_portable_display_name(value: Seq<char>) -> Option<Seq<char>> {
    let n = crate::text::trim_dots(trim(value));
    if n.len() == 0 || !spec_has_meaningful_name_chars(n) {
        None
    } else if spec_is_version_like_name(n) || spec_is_generic_container_name(n) {
        None
    } else {
        Some(n)
    }
}

pub fn normalize_portable_display_name_chars(value: &[char]) -> (r: Option<Vec<char>>)
    ensures
        match r {
            Some(v) => spec_normalize_portable_display_name(value@) == Some(v@),
            None => spec_normalize_portable_display_name(value@) is None,
        },
{
    let t = trim_chars(value);
    let n = crate::text::trim_dot_chars(t.as_slice());
    if n.len() == 0 || !has_meaningful_name_chars(n.as_slice()) {
        return None;
    }
    if is_version_like_name(n.as_slice()) || is_generic_container_name(n.as_slice()) {
        return None;
    }
    Some(n)
}

/// A display name for an application, trimmed, unless it is empty, version-like or generic.
pub fn normalize_portable_display_name(value: &str) -> (r: Option<String>)
    ensures
        match r {
            Some(s) => spec_normalize_portable_display_name(value@) == Some(s@),
            None => spec_normalize_portable_display_name(value@) is None,
        },
{
    let v = chars_of(value);
    match normalize_portable_display_name_chars(v.as_slice()) {
        Some(n) => Some(string_from(n.as_slice())),
        None => None,
    }
}

/// The letters and digits of a name, each in Unicode lowercase.
pub open spec fn rough(s: Seq<char>) -> Seq<char>
    decreases s.len(),
{
    if s.len() == 0 {
        seq![]
    } else {
        rough(s.drop_last()) + if crate::text::unicode_alphanumeric(s.last()) {
            crate::text::char_lowercase(s.last())
        } else {
            seq![]
        }
    }
}

fn rough_exec(s: &[char]) -> (r: Vec<char>)
    ensures
        r@ == rough(s@),
{
    let mut r: Vec<char> = Vec::new();
    let mut i: usize = 0;
    while i < s.len()
        invariant
            i <= s.len(),
            r@ == rough(s@.take(i as int)),
        decreases s.len() - i,
    {
        let ghost before = r@;
        if crate::text::char_is_alphanumeric(s[i]) {
            let low = crate::text::char_to_lowercase(s[i]);
            crate::text::extend_chars(&mut r, low.as_slice());
        }
        i += 1;
        assert(s@.take(i as int).drop_last() == s@.take(i - 1));
        assert(s@.take(i as int).last() == s@[i - 1]);
        assert(r@ =~= rough(s@.take(i as int)));
    }
    assert(s@.take(s.len() as int) == s@);
    r
}

pub open spec fn spec_names_roughly_match(left: Seq<char>, right: Seq<char>) -> bool {
    rough(left).len() > 0 && rough(left) == rough(right)
}

/// Whether two names agree in their letters and digits, ignoring case.
pub fn names_roughly_match(left: &[char], right: &[char]) -> (r: bool)
    ensures
        r == spec_names_roughly_match(left@, right@),
{
    let l = rough_exec(left);
    let rr = rough_exec(right);
    l.len() > 0 && crate::text::chars_eq(l.as_slice(), rr.as_slice())
}

pub open spec fn spec_directory_name_supports_candidate(path: Seq<char>, display_name: Seq<char>) -> bool {
    match crate::winpath::file_name(path) {
        Some(name) => !spec_is_generic_container_name(name) && spec_names_roughly_match(name, display_name),
        None => false,
    }
}

/// Whether a folder's name matches the display name of the application in it.
pub fn directory_name_supports_candidate(path: &[char], display_name: &[char]) -> (r: bool)
    ensures
        r == spec_directory_name_supports_candidate(path@, display_name@),
{
    match crate::winpath::file_name_exec(path) {
        Some(name) => !is_generic_container_name(name.as_slice()) && names_roughly_match(
            name.as_slice(),
            display_name,
        ),
        None => false,
    }
}

pub open spec fn spec_is_executable_file(path: Seq<char>) -> bool {
    match crate::winpath::extension(path) {
        Some(e) => lower(e) == "exe"@,
        None => false,
    }
}

pub fn extension_exec(p: &[char]) -> (r: Option<Vec<char>>)
    ensures
        match r {
            Some(v) => crate::winpath::extension(p@) == Some(v@),
            None => crate::winpath::extension(p@) is None,
        },
{
    match crate::winpath::file_name_exec(p) {
        Some(n) => crate::winpath::ext_of_exec(n.as_slice()),
        None => None,
    }
}

} // verus!

verus! {

/// Whether a path's extension is `exe`, in any case.
pub fn is_executable_file(path: &str) -> (r: bool)
    ensures
        r == spec_is_executable_file(path@),
{
    let p = chars_of(path);
    match extension_exec(p.as_slice()) {
        Some(e) => {
            let l = lower_chars(e.as_slice());
            crate::text::chars_eq_str(l.as_slice(), "exe")
        },
        None => false,
    }
}

pub fn file_stem_exec(p: &[char]) -> (r: Option<Vec<char>>)
    ensures
        match r {
            Some(v) => crate::winpath::file_stem(p@) == Some(v@),
            None => crate::winpath::file_stem(p@) is None,
        },
{
    match crate::winpath::file_name_exec(p) {
        Some(n) => Some(crate::winpath::stem_of_exec(n.as_slice())),
        None => None,
    }
}

/// The file stem of a path in ASCII lowercase, or empty text.
pub open spec fn lower_stem(p: Seq<char>) -> Seq<char> {
    match crate::winpath::file_stem(p) {
        Some(s) => lower(s),
        None => seq![],
    }
}

fn lower_stem_exec(p: &[char]) -> (r: Vec<char>)
    ensures
        r@ == lower_stem(p@),
{
    match file_stem_exec(p) {
        Some(s) => lower_chars(s.as_slice()),
        None => Vec::new(),
    }
}

pub open spec fn spec_is_probable_installer_executable(path: Seq<char>) -> bool {
    let f = lower_name(path);
    ||| contains(f, "setup"@)
    ||| contains(f, "install"@)
    ||| contains(f, "installer"@)
    ||| contains(f, "uninstall"@)
    ||| contains(f, "unins"@)
    ||| contains(f, "update"@)
    ||| contains(f, "updater"@)
    ||| contains(f, "patch"@)
}

/// Whether an executable's name looks like an installer, uninstaller or updater.
pub fn is_probable_installer_executable(path: &str) -> (r: bool)
    ensures
        r == spec_is_probable_installer_executable(path@),
{
    let p = chars_of(path);
    let f = lower_name_exec(p.as_slice());
    let f = f.as_slice();
    contains_str(f, "setup") || contains_str(f, "install") || contains_str(f, "installer")
        || contains_str(f, "uninstall") || contains_str(f, "unins") || contains_str(f, "update")
        || contains_str(f, "updater") || contains_str(f, "patch")
}

pub open spec fn spec_is_python_toolchain_wrapper_name(file_name: Seq<char>) -> bool {
    ||| is_python_wrapper_exact(file_name)
    ||| starts_with(file_name, "pip"@)
    ||| starts_with(file_name, "python3"@)
    ||| starts_with(file_name, "pythonw3"@)
    ||| starts_with(file_name, "easy_install-"@)
}

/// Whether a (lowercase) executable stem is a Python toolchain wrapper.
pub fn is_python_toolchain_wrapper_name(file_name: &[char]) -> (r: bool)
    ensures
        r == spec_is_python_toolchain_wrapper_name(file_name@),
{
    is_python_wrapper_exact_exec(file_name) || starts_with_str(file_name, "pip") || starts_with_str(
        file_name,
        "python3",
    ) || starts_with_str(file_name, "pythonw3") || starts_with_str(file_name, "easy_install-")
}

/// Component `i` of a path's names and steps is the name of one of its ancestors:
/// it is not `..`.
pub open spec fn is_name_segment(s: Seq<Seq<char>>, i: int) -> bool {
    s[i] != seq!['.', '.']
}

pub open spec fn spec_has_python_toolchain_context(path: Seq<char>) -> bool {
    let s = body_segments(path);
    exists|i: int| 0 <= i < s.len() && is_name_segment(s, i) && is_python_toolchain_segment(lower(#[trigger] s[i]))
}

/// Whether some ancestor of a path is named like a Python environment folder.
pub fn has_python_toolchain_context(path: &str) -> (r: bool)
    ensures
        r == spec_has_python_toolchain_context(path@),
{
    let p = chars_of(path);
    let segs = body_segments_exec(p.as_slice());
    let ghost s = body_segments(p@);
    let mut i: usize = 0;
    while i < segs.len()
        invariant
            i <= segs.len(),
            views(segs@) == s,
            s == body_segments(path@),
            forall|j: int| 0 <= j < i ==> !(is_name_segment(s, j) && is_python_toolchain_segment(lower(#[trigger] s[j]))),
        decreases segs.len() - i,
    {
        assert(s[i as int] == segs@[i as int]@);
        let seg = segs[i].as_slice();
        let name = !crate::winpath::is_dotdot(seg);
        if name {
            let l = lower_chars(seg);
            if is_python_toolchain_segment_exec(l.as_slice()) {
                assert(is_name_segment(s, i as int));
                assert(is_python_toolchain_segment(lower(s[i as int])));
                assert(spec_has_python_toolchain_context(path@));
                return true;
            }
        }
        i += 1;
    }
    false
}

pub open spec fn spec_looks_like_curated_portable_location(path: Seq<char>) -> bool {
    let s = body_segments(path);
    exists|i: int| 0 <= i < s.len() && is_name_segment(s, i) && is_curated_portable_segment(lower(#[trigger] s[i]))
}

/// Whether some ancestor of a path is a usual home of portable applications.
pub fn looks_like_curated_portable_location(path: &str) -> (r: bool)
    ensures
        r == spec_looks_like_curated_portable_location(path@),
{
    let p = chars_of(path);
    let segs = body_segments_exec(p.as_slice());
    let ghost s = body_segments(p@);
    let mut i: usize = 0;
    while i < segs.len()
        invariant
            i <= segs.len(),
            views(segs@) == s,
            s == body_segments(path@),
            forall|j: int| 0 <= j < i ==> !(is_name_segment(s, j) && is_curated_portable_segment(lower(#[trigger] s[j]))),
        decreases segs.len() - i,
    {
        assert(s[i as int] == segs@[i as int]@);
        let seg = segs[i].as_slice();
        let name = !crate::winpath::is_dotdot(seg);
        if name {
            let l = lower_chars(seg);
            if is_curated_portable_segment_exec(l.as_slice()) {
                assert(is_name_segment(s, i as int));
                assert(is_curated_portable_segment(lower(s[i as int])));
                assert(spec_looks_like_curated_portable_location(path@));
                return true;
            }
        }
        i += 1;
    }
    false
}

/// Auxiliary executable name fragments.
pub open spec fn is_auxiliary_fragment_in(f: Seq<char>) -> bool {
    ||| contains(f, "launcher"@)
    ||| contains(f, "launch"@)
    ||| contains(f, "helper"@)
    ||| contains(f, "service"@)
    ||| contains(f, "broker"@)
    ||| contains(f, "daemon"@)
    ||| contains(f, "monitor"@)
    ||| contains(f, "updater"@)
    ||| contains(f, "updatehelper"@)
    ||| contains(f, "crashpad_handler"@)
    ||| contains(f, "crashreporter"@)
    ||| contains(f, "crashreport"@)
    ||| contains(f, "unitycrashhandler"@)
    ||| contains(f, "subprocess"@)
    ||| contains(f, "renderer"@)
    ||| contains(f, "cefsharp.browser"@)
    ||| contains(f, "webview2"@)
    ||| contains(f, "elevation_service"@)
    ||| contains(f, "notification_helper"@)
    ||| contains(f, "proxy"@)
    ||| contains(f, "host"@)
    ||| contains(f, "bootstrap"@)
}

fn has_auxiliary_fragment(f: &[char]) -> (r: bool)
    ensures
        r == is_auxiliary_fragment_in(f@),
{
    contains_str(f, "launcher") || contains_str(f, "launch") || contains_str(f, "helper")
        || contains_str(f, "service") || contains_str(f, "broker") || contains_str(f, "daemon")
        || contains_str(f, "monitor") || contains_str(f, "updater") || contains_str(f, "updatehelper")
        || contains_str(f, "crashpad_handler") || contains_str(f, "crashreporter") || contains_str(
        f,
        "crashreport",
    ) || contains_str(f, "unitycrashhandler") || contains_str(f, "subprocess") || contains_str(
        f,
        "renderer",
    ) || contains_str(f, "cefsharp.browser") || contains_str(f, "webview2") || contains_str(
        f,
        "elevation_service",
    ) || contains_str(f, "notification_helper") || contains_str(f, "proxy") || contains_str(
        f,
        "host",
    ) || contains_str(f, "bootstrap")
}

pub open spec fn spec_is_probable_auxiliary_executable(path: Seq<char>) -> bool {
    let stem = lower_stem(path);
    ||| is_distlib_launcher_stem(stem)
    ||| (spec_is_python_toolchain_wrapper_name(stem) && spec_has_python_toolchain_context(path))
    ||| is_auxiliary_fragment_in(stem)
}

/// Whether an executable is a helper of some other program rather than the program itself.
pub fn is_probable_auxiliary_executable(path: &str) -> (r: bool)
    ensures
        r == spec_is_probable_auxiliary_executable(path@),
{
    let p = chars_of(path);
    let stem = lower_stem_exec(p.as_slice());
    if is_distlib_launcher_stem_exec(stem.as_slice()) {
        return true;
    }
    if is_python_toolchain_wrapper_name(stem.as_slice()) && has_python_toolchain_context(path) {
        return true;
    }
    has_auxiliary_fragment(stem.as_slice())
}

} // verus!

verus! {

/// A name trimmed of white space, or empty text.
pub open spec fn trimmed_or_empty(n: Option<Seq<char>>) -> Seq<char> {
    match n {
        Some(v) => trim(v),
        None => seq![],
    }
}

/// How well an executable's name suits as the main program of a folder.
pub open spec fn spec_score_executable_name(container_root: Seq<char>, path: Seq<char>) -> int {
    let f = lower_name(path);
    let stem = trimmed_or_empty(crate::winpath::file_stem(path));
    let container = trimmed_or_empty(crate::winpath::file_name(container_root));
    let weak = spec_is_weak_portable_candidate_name(stem);
    let a = (if !contains(f, "setup"@) && !contains(f, "uninstall"@) { 5int } else { 0int }) + (if !contains(
        f,
        "helper"@,
    ) && !contains(f, "update"@) {
        3int
    } else {
        0int
    }) + (if !weak { 24int } else { 0int }) + (if !weak && spec_names_roughly_match(stem, container) {
        30int
    } else {
        0int
    });
    let b = if spec_is_generic_launcher_name(stem) {
        if a >= 12 { a - 12 } else { 0 }
    } else {
        a
    };
    b + (vstd::utf8::encode_utf8(f).len() as usize) as int
}

/// The folder's name counts for 30: the same executable scores 30 more in a folder
/// whose name roughly matches its stem than in one whose name does not, where the
/// stem is not a weak name.
pub proof fn law_folder_name_match_adds_thirty(matching_root: Seq<char>, other_root: Seq<char>, path: Seq<char>)
    requires
        !spec_is_weak_portable_candidate_name(trimmed_or_empty(crate::winpath::file_stem(path))),
        spec_names_roughly_match(
            trimmed_or_empty(crate::winpath::file_stem(path)),
            trimmed_or_empty(crate::winpath::file_name(matching_root)),
        ),
        !spec_names_roughly_match(
            trimmed_or_empty(crate::winpath::file_stem(path)),
            trimmed_or_empty(crate::winpath::file_name(other_root)),
        ),
    ensures
        spec_score_executable_name(matching_root, path) == spec_score_executable_name(other_root, path) + 30,
{
}

/// A weak stem gets nothing from the folder's name: the same executable scores the
/// same in any folder.
pub proof fn law_weak_name_ignores_folder(root_a: Seq<char>, root_b: Seq<char>, path: Seq<char>)
    requires
        spec_is_weak_portable_candidate_name(trimmed_or_empty(crate::winpath::file_stem(path))),
    ensures
        spec_score_executable_name(root_a, path) == spec_score_executable_name(root_b, path),
{
}

/// `spec_score_executable_name`, capped at `usize::MAX`.
pub open spec fn capped(v: int) -> int {
    if v <= usize::MAX { v } else { usize::MAX as int }
}

pub fn score_executable_name(container_root: &str, path: &str) -> (r: usize)
    ensures
        r == capped(spec_score_executable_name(container_root@, path@)),
{
    let p = chars_of(path);
    let f = lower_name_exec(p.as_slice());
    let stem = match file_stem_exec(p.as_slice()) {
        Some(s) => trim_chars(s.as_slice()),
        None => Vec::new(),
    };
    let c = chars_of(container_root);
    let container = match crate::winpath::file_name_exec(c.as_slice()) {
        Some(n) => trim_chars(n.as_slice()),
        None => Vec::new(),
    };
    let fs = f.as_slice();
    let mut score: usize = 0;
    if !contains_str(fs, "setup") && !contains_str(fs, "uninstall") {
        score += 5;
    }
    if !contains_str(fs, "helper") && !contains_str(fs, "update") {
        score += 3;
    }
    let weak = is_weak_portable_candidate_name(stem.as_slice());
    if !weak {
        score += 24;
    }
    if !weak && names_roughly_match(stem.as_slice(), container.as_slice()) {
        score += 30;
    }
    if is_generic_launcher_name(stem.as_slice()) {
        score = score.saturating_sub(12);
    }
    let text = string_from(fs);
    let byte_len = text.as_str().len();
    score.saturating_add(byte_len)
}

/// The name of the parent folder of a path, where it has one.
pub open spec fn parent_file_name(p: Seq<char>) -> Option<Seq<char>> {
    let s = body_segments(p);
    if s.len() >= 2 && is_name_segment(s, s.len() - 2) {
        Some(s[s.len() - 2])
    } else {
        None
    }
}

fn parent_file_name_exec(p: &[char]) -> (r: Option<Vec<char>>)
    ensures
        match r {
            Some(v) => parent_file_name(p@) == Some(v@),
            None => parent_file_name(p@) is None,
        },
{
    let mut segs = body_segments_exec(p);
    let n = segs.len();
    if n < 2 {
        return None;
    }
    let ghost s = body_segments(p@);
    assert(s[n - 2] == segs@[n - 2]@);
    let seg_is_name = !crate::winpath::is_dotdot(segs[n - 2].as_slice());
    if !seg_is_name {
        return None;
    }
    segs.pop();
    segs.pop()
}

/// The source of a root's display name: its stem where it has an extension, else its name.
pub open spec fn root_display_source(root: Seq<char>) -> Option<Seq<char>> {
    if crate::winpath::extension(root) is Some {
        crate::winpath::file_stem(root)
    } else {
        crate::winpath::file_name(root)
    }
}

/// The score of one display-name source.
pub open spec fn display_score(
    raw: Seq<char>,
    normalized: Seq<char>,
    root_name: Option<Seq<char>>,
    parent_name: Option<Seq<char>>,
    exe_name: Option<Seq<char>>,
) -> int {
    (if exe_name == Some(raw) { 40int } else { 0int }) + (if root_name == Some(raw) { 12int } else { 0int }) + (
    if parent_name == Some(raw) {
        8int
    } else {
        0int
    }) + (if spec_names_roughly_match(normalized, raw) { 4int } else { 0int }) + (
    if !spec_is_weak_portable_candidate_name(normalized) {
        16int
    } else {
        0int
    }) - (if spec_is_generic_launcher_name(normalized) { 18int } else { 0int })
}

/// The best name so far after considering one more source; a later source wins only
/// with a strictly higher score.
pub open spec fn consider_name(
    best: Option<(Seq<char>, int)>,
    raw: Option<Seq<char>>,
    root_name: Option<Seq<char>>,
    parent_name: Option<Seq<char>>,
    exe_name: Option<Seq<char>>,
) -> Option<(Seq<char>, int)> {
    match raw {
        None => best,
        Some(r) => match spec_normalize_portable_display_name(r) {
            None => best,
            Some(n) => {
                let sc = display_score(r, n, root_name, parent_name, exe_name);
                match best {
                    None => Some((n, sc)),
                    Some(b) => if sc > b.1 {
                        Some((n, sc))
                    } else {
                        best
                    },
                }
            },
        },
    }
}

/// The display name of a portable candidate, chosen among the root's name, the
/// executable's parent folder name (when the root is a folder) and the executable's stem.
pub open spec fn spec_infer_portable_display_name(
    root_path: Seq<char>,
    main_executable: Seq<char>,
    root_is_dir: bool,
) -> Option<Seq<char>> {
    let root_name = root_display_source(root_path);
    let parent_name = if root_is_dir { parent_file_name(main_executable) } else { None };
    let exe_name = crate::winpath::file_stem(main_executable);
    let b0 = consider_name(None, root_name, root_name, parent_name, exe_name);
    let b1 = consider_name(b0, parent_name, root_name, parent_name, exe_name);
    let b2 = consider_name(b1, exe_name, root_name, parent_name, exe_name);
    match b2 {
        Some(b) => Some(b.0),
        None => None,
    }
}

fn opt_eq(a: &Option<Vec<char>>, b: &Option<Vec<char>>) -> (r: bool)
    ensures
        r == (match a {
            Some(x) => Some(x@),
            None => None::<Seq<char>>,
        } == match b {
            Some(y) => Some(y@),
            None => None::<Seq<char>>,
        }),
{
    match (a, b) {
        (Some(x), Some(y)) => crate::text::chars_eq(x.as_slice(), y.as_slice()),
        (None, None) => true,
        _ => false,
    }
}

/// The view of an optional character vector.
pub open spec fn opt_view(a: Option<Vec<char>>) -> Option<Seq<char>> {
    match a {
        Some(x) => Some(x@),
        None => None,
    }
}

fn consider_name_exec(
    best: Option<(Vec<char>, i64)>,
    raw: &Option<Vec<char>>,
    root_name: &Option<Vec<char>>,
    parent_name: &Option<Vec<char>>,
    exe_name: &Option<Vec<char>>,
) -> (r: Option<(Vec<char>, i64)>)
    requires
        match best {
            Some(b) => -100 <= b.1 <= 100,
            None => true,
        },
    ensures
        match r {
            Some(b) => -100 <= b.1 <= 100,
            None => true,
        },
        match r {
            Some(b) => Some((b.0@, b.1 as int)),
            None => None,
        } == consider_name(
            match best {
                Some(b) => Some((b.0@, b.1 as int)),
                None => None,
            },
            opt_view(*raw),
            opt_view(*root_name),
            opt_view(*parent_name),
            opt_view(*exe_name),
        ),
{
    let r = match raw {
        None => return best,
        Some(r) => r,
    };
    let n = match normalize_portable_display_name_chars(r.as_slice()) {
        None => return best,
        Some(n) => n,
    };
    let copy = crate::winpath::copy_range(r.as_slice(), 0, r.len());
    assert(copy@ =~= r@);
    let some_raw: Option<Vec<char>> = Some(copy);
    assert(opt_view(some_raw) == Some(r@));
    let mut sc: i64 = 0;
    if opt_eq(exe_name, &some_raw) {
        sc += 40;
    }
    if opt_eq(root_name, &some_raw) {
        sc += 12;
    }
    if opt_eq(parent_name, &some_raw) {
        sc += 8;
    }
    if names_roughly_match(n.as_slice(), r.as_slice()) {
        sc += 4;
    }
    if !is_weak_portable_candidate_name(n.as_slice()) {
        sc += 16;
    }
    if is_generic_launcher_name(n.as_slice()) {
        sc -= 18;
    }
    assert(sc == display_score(r@, n@, opt_view(*root_name), opt_view(*parent_name), opt_view(*exe_name)));
    match best {
        None => Some((n, sc)),
        Some(b) => if sc > b.1 {
            Some((n, sc))
        } else {
            Some(b)
        },
    }
}

pub fn infer_portable_display_name(root_path: &str, main_executable: &str, root_is_dir: bool) -> (r:
    Option<String>)
    ensures
        match r {
            Some(s) => spec_infer_portable_display_name(root_path@, main_executable@, root_is_dir) == Some(s@),
            None => spec_infer_portable_display_name(root_path@, main_executable@, root_is_dir) is None,
        },
{
    let root = chars_of(root_path);
    let exe = chars_of(main_executable);
    let root_name = if extension_exec(root.as_slice()).is_some() {
        file_stem_exec(root.as_slice())
    } else {
        crate::winpath::file_name_exec(root.as_slice())
    };
    let parent_name = if root_is_dir {
        parent_file_name_exec(exe.as_slice())
    } else {
        None
    };
    let exe_name = file_stem_exec(exe.as_slice());
    let b0 = consider_name_exec(None, &root_name, &root_name, &parent_name, &exe_name);
    let b1 = consider_name_exec(b0, &parent_name, &root_name, &parent_name, &exe_name);
    let b2 = consider_name_exec(b1, &exe_name, &root_name, &parent_name, &exe_name);
    match b2 {
        Some(b) => Some(string_from(b.0.as_slice())),
        None => None,
    }
}

} // verus!

verus! {

/// What a scan proposes: installed applications, portable candidates and personal-data roots.
#[derive(Debug, Clone)]
pub struct BackupPreview {
    pub installed_apps: Vec<crate::models::InstalledAppRecord>,
    pub portable_candidates: Vec<crate::models::PortableAppCandidate>,
    pub user_data_roots: Vec<crate::models::UserDataRoot>,
}

/// The counts and sizes of what is selected for backup.
#[derive(Debug, Clone, Copy)]
pub struct SelectionSummary {
    pub selected_user_roots: usize,
    pub selected_portable_apps: usize,
    pub selected_installed_app_dirs: usize,
    pub total_files: u64,
    pub total_bytes: u64,
}

impl Default for SelectionSummary {
    fn default() -> (r: Self)
        ensures
            r.selected_user_roots == 0,
            r.selected_portable_apps == 0,
            r.selected_installed_app_dirs == 0,
            r.total_files == 0,
            r.total_bytes == 0,
    {
        SelectionSummary {
            selected_user_roots: 0,
            selected_portable_apps: 0,
            selected_installed_app_dirs: 0,
            total_files: 0,
            total_bytes: 0,
        }
    }
}

/// For each user-data root, its stats where its path key is selected.
pub open spec fn user_picks(roots: Seq<crate::models::UserDataRoot>, sel: Seq<Seq<char>>) -> Seq<Option<crate::models::PathStats>> {
    roots.map_values(|r: crate::models::UserDataRoot| if sel.contains(spec_path_key(r.path@)) { Some(r.stats) } else { None })
}

/// For each portable candidate, its stats where its root's key is selected.
pub open spec fn portable_picks(cands: Seq<crate::models::PortableAppCandidate>, sel: Seq<Seq<char>>) -> Seq<Option<crate::models::PathStats>> {
    cands.map_values(|c: crate::models::PortableAppCandidate| if sel.contains(spec_path_key(c.root_path@)) { Some(c.stats) } else { None })
}

/// For each installed application, its install stats where its selection key is selected.
pub open spec fn installed_picks(apps: Seq<crate::models::InstalledAppRecord>, sel: Seq<Seq<char>>) -> Seq<Option<crate::models::PathStats>> {
    apps.map_values(|a: crate::models::InstalledAppRecord| if sel.contains(a.key()) { a.install_stats } else { None })
}

pub open spec fn count_some(s: Seq<Option<crate::models::PathStats>>) -> nat
    decreases s.len(),
{
    if s.len() == 0 { 0 } else { count_some(s.drop_last()) + if s.last() is Some { 1nat } else { 0nat } }
}

pub open spec fn sum_files(s: Seq<Option<crate::models::PathStats>>) -> nat
    decreases s.len(),
{
    if s.len() == 0 { 0 } else { sum_files(s.drop_last()) + match s.last() { Some(st) => st.file_count as nat, None => 0nat } }
}

pub open spec fn sum_bytes(s: Seq<Option<crate::models::PathStats>>) -> nat
    decreases s.len(),
{
    if s.len() == 0 { 0 } else { sum_bytes(s.drop_last()) + match s.last() { Some(st) => st.total_bytes as nat, None => 0nat } }
}

proof fn lemma_sums_prefix(s: Seq<Option<crate::models::PathStats>>, i: int)
    requires
        0 <= i <= s.len(),
    ensures
        sum_files(s.take(i)) <= sum_files(s),
        sum_bytes(s.take(i)) <= sum_bytes(s),
        count_some(s.take(i)) <= i,
    decreases s.len(),
{
    if i == s.len() {
        assert(s.take(i) == s);
        lemma_count_le_len(s);
    } else {
        lemma_sums_prefix(s.drop_last(), i);
        assert(s.drop_last().take(i) == s.take(i));
    }
}

proof fn lemma_count_le_len(s: Seq<Option<crate::models::PathStats>>)
    ensures
        count_some(s) <= s.len(),
    decreases s.len(),
{
    if s.len() > 0 {
        lemma_count_le_len(s.drop_last());
    }
}

/// A running tally over a prefix of picks.
struct Tally {
    count: usize,
    files: u64,
    bytes: u64,
}

fn tally_step(t: &mut Tally, pick: Option<crate::models::PathStats>, Ghost(s): Ghost<Seq<Option<crate::models::PathStats>>>, Ghost(i): Ghost<int>, Ghost(file_cap): Ghost<nat>, Ghost(byte_cap): Ghost<nat>)
    requires
        0 <= i < s.len(),
        s[i] == pick,
        old(t).count == count_some(s.take(i)),
        old(t).files == sum_files(s.take(i)),
        old(t).bytes == sum_bytes(s.take(i)),
        old(t).files + sum_files(s) - sum_files(s.take(i)) <= file_cap <= u64::MAX,
        old(t).bytes + sum_bytes(s) - sum_bytes(s.take(i)) <= byte_cap <= u64::MAX,
        i < usize::MAX,
    ensures
        final(t).count == count_some(s.take(i + 1)),
        final(t).files == sum_files(s.take(i + 1)),
        final(t).bytes == sum_bytes(s.take(i + 1)),
{
    proof {
        assert(s.take(i + 1).drop_last() == s.take(i));
        lemma_sums_prefix(s, i + 1);
        lemma_sums_prefix(s, i);
    }
    match pick {
        Some(st) => {
            t.count = t.count + 1;
            t.files = t.files + st.file_count;
            t.bytes = t.bytes + st.total_bytes;
        },
        None => {},
    }
}

} // verus!

verus! {

/// What `summarize_selection` reports for the given selections.
pub open spec fn spec_selection_summary_ok(
    s: SelectionSummary,
    preview: BackupPreview,
    sel_users: Seq<Seq<char>>,
    sel_portable: Seq<Seq<char>>,
    sel_installed: Seq<Seq<char>>,
) -> bool {
    let u = user_picks(preview.user_data_roots@, sel_users);
    let p = portable_picks(preview.portable_candidates@, sel_portable);
    let i = installed_picks(preview.installed_apps@, sel_installed);
    &&& s.selected_user_roots == count_some(u)
    &&& s.selected_portable_apps == count_some(p)
    &&& s.selected_installed_app_dirs == count_some(i)
    &&& s.total_files == sum_files(u) + sum_files(p) + sum_files(i)
    &&& s.total_bytes == sum_bytes(u) + sum_bytes(p) + sum_bytes(i)
}

proof fn lemma_picks_push(s: Seq<Option<crate::models::PathStats>>, x: Option<crate::models::PathStats>)
    ensures
        count_some(s.push(x)) == count_some(s) + if x is Some { 1nat } else { 0nat },
        sum_files(s.push(x)) == sum_files(s) + match x { Some(st) => st.file_count as nat, None => 0nat },
        sum_bytes(s.push(x)) == sum_bytes(s) + match x { Some(st) => st.total_bytes as nat, None => 0nat },
{
    assert(s.push(x).drop_last() =~= s);
}

/// A summary of no selection, over a scan that found nothing, is all zeros.
pub proof fn law_summary_of_nothing(preview: BackupPreview, sel_users: Seq<Seq<char>>, sel_portable: Seq<Seq<char>>, sel_installed: Seq<Seq<char>>, s: SelectionSummary)
    requires
        preview.user_data_roots@.len() == 0,
        preview.portable_candidates@.len() == 0,
        preview.installed_apps@.len() == 0,
        spec_selection_summary_ok(s, preview, sel_users, sel_portable, sel_installed),
    ensures
        s.selected_user_roots == 0 && s.selected_portable_apps == 0 && s.selected_installed_app_dirs == 0,
        s.total_files == 0 && s.total_bytes == 0,
{
    assert(user_picks(preview.user_data_roots@, sel_users).len() == 0);
    assert(portable_picks(preview.portable_candidates@, sel_portable).len() == 0);
    assert(installed_picks(preview.installed_apps@, sel_installed).len() == 0);
}

/// One more installed application in the scan changes the summary by exactly its
/// folder: where its selection key is selected and its folder was measured, one more
/// folder and its files and bytes are added; otherwise nothing changes.
pub proof fn law_summary_adds_installed_app(
    before: BackupPreview,
    after: BackupPreview,
    app: crate::models::InstalledAppRecord,
    sel_users: Seq<Seq<char>>,
    sel_portable: Seq<Seq<char>>,
    sel_installed: Seq<Seq<char>>,
    s1: SelectionSummary,
    s2: SelectionSummary,
)
    requires
        after.user_data_roots@ == before.user_data_roots@,
        after.portable_candidates@ == before.portable_candidates@,
        after.installed_apps@ == before.installed_apps@.push(app),
        spec_selection_summary_ok(s1, before, sel_users, sel_portable, sel_installed),
        spec_selection_summary_ok(s2, after, sel_users, sel_portable, sel_installed),
    ensures
        s2.selected_user_roots == s1.selected_user_roots && s2.selected_portable_apps == s1.selected_portable_apps,
        match app.install_stats {
            Some(st) => if sel_installed.contains(app.key()) {
                &&& s2.selected_installed_app_dirs == s1.selected_installed_app_dirs + 1
                &&& s2.total_files == s1.total_files + st.file_count
                &&& s2.total_bytes == s1.total_bytes + st.total_bytes
            } else {
                s2.selected_installed_app_dirs == s1.selected_installed_app_dirs && s2.total_files == s1.total_files
                    && s2.total_bytes == s1.total_bytes
            },
            None => s2.selected_installed_app_dirs == s1.selected_installed_app_dirs && s2.total_files == s1.total_files
                && s2.total_bytes == s1.total_bytes,
        },
{
    let x = if sel_installed.contains(app.key()) { app.install_stats } else { None };
    assert(installed_picks(after.installed_apps@, sel_installed) =~= installed_picks(before.installed_apps@, sel_installed).push(x));
    lemma_picks_push(installed_picks(before.installed_apps@, sel_installed), x);
}

/// One more personal-data root in the scan changes the summary by exactly that root:
/// where its path key is selected, one more root and its files and bytes are added;
/// otherwise nothing changes.
pub proof fn law_summary_adds_user_root(
    before: BackupPreview,
    after: BackupPreview,
    root: crate::models::UserDataRoot,
    sel_users: Seq<Seq<char>>,
    sel_portable: Seq<Seq<char>>,
    sel_installed: Seq<Seq<char>>,
    s1: SelectionSummary,
    s2: SelectionSummary,
)
    requires
        after.user_data_roots@ == before.user_data_roots@.push(root),
        after.portable_candidates@ == before.portable_candidates@,
        after.installed_apps@ == before.installed_apps@,
        spec_selection_summary_ok(s1, before, sel_users, sel_portable, sel_installed),
        spec_selection_summary_ok(s2, after, sel_users, sel_portable, sel_installed),
    ensures
        s2.selected_portable_apps == s1.selected_portable_apps && s2.selected_installed_app_dirs == s1.selected_installed_app_dirs,
        if sel_users.contains(spec_path_key(root.path@)) {
            &&& s2.selected_user_roots == s1.selected_user_roots + 1
            &&& s2.total_files == s1.total_files + root.stats.file_count
            &&& s2.total_bytes == s1.total_bytes + root.stats.total_bytes
        } else {
            s2.selected_user_roots == s1.selected_user_roots && s2.total_files == s1.total_files && s2.total_bytes == s1.total_bytes
        },
{
    let x = if sel_users.contains(spec_path_key(root.path@)) { Some(root.stats) } else { None };
    assert(user_picks(after.user_data_roots@, sel_users) =~= user_picks(before.user_data_roots@, sel_users).push(x));
    lemma_picks_push(user_picks(before.user_data_roots@, sel_users), x);
}

/// One more portable candidate in the scan changes the summary by exactly that
/// candidate: where its root's path key is selected, one more application and its
/// files and bytes are added; otherwise nothing changes.
pub proof fn law_summary_adds_portable_app(
    before: BackupPreview,
    after: BackupPreview,
    cand: crate::models::PortableAppCandidate,
    sel_users: Seq<Seq<char>>,
    sel_portable: Seq<Seq<char>>,
    sel_installed: Seq<Seq<char>>,
    s1: SelectionSummary,
    s2: SelectionSummary,
)
    requires
        after.user_data_roots@ == before.user_data_roots@,
        after.portable_candidates@ == before.portable_candidates@.push(cand),
        after.installed_apps@ == before.installed_apps@,
        spec_selection_summary_ok(s1, before, sel_users, sel_portable, sel_installed),
        spec_selection_summary_ok(s2, after, sel_users, sel_portable, sel_installed),
    ensures
        s2.selected_user_roots == s1.selected_user_roots && s2.selected_installed_app_dirs == s1.selected_installed_app_dirs,
        if sel_portable.contains(spec_path_key(cand.root_path@)) {
            &&& s2.selected_portable_apps == s1.selected_portable_apps + 1
            &&& s2.total_files == s1.total_files + cand.stats.file_count
            &&& s2.total_bytes == s1.total_bytes + cand.stats.total_bytes
        } else {
            s2.selected_portable_apps == s1.selected_portable_apps && s2.total_files == s1.total_files && s2.total_bytes
                == s1.total_bytes
        },
{
    let x = if sel_portable.contains(spec_path_key(cand.root_path@)) { Some(cand.stats) } else { None };
    assert(portable_picks(after.portable_candidates@, sel_portable) =~= portable_picks(before.portable_candidates@, sel_portable).push(x));
    lemma_picks_push(portable_picks(before.portable_candidates@, sel_portable), x);
}

impl BackupPreview {
    /// Counts the selected roots, candidates and installed-app folders, and adds up
    /// their files and bytes. An installed application counts only where its install
    /// folder was measured.
    pub fn summarize_selection(
        &self,
        selected_user_roots: &[String],
        selected_portable_apps: &[String],
        selected_installed_app_dirs: &[String],
    ) -> (r: SelectionSummary)
        requires
            sum_files(user_picks(self.user_data_roots@, key_views(selected_user_roots@))) + sum_files(
                portable_picks(self.portable_candidates@, key_views(selected_portable_apps@)),
            ) + sum_files(installed_picks(self.installed_apps@, key_views(selected_installed_app_dirs@)))
                <= u64::MAX,
            sum_bytes(user_picks(self.user_data_roots@, key_views(selected_user_roots@))) + sum_bytes(
                portable_picks(self.portable_candidates@, key_views(selected_portable_apps@)),
            ) + sum_bytes(installed_picks(self.installed_apps@, key_views(selected_installed_app_dirs@)))
                <= u64::MAX,
        ensures
            spec_selection_summary_ok(
                r,
                *self,
                key_views(selected_user_roots@),
                key_views(selected_portable_apps@),
                key_views(selected_installed_app_dirs@),
            ),
    {
        let ghost u = user_picks(self.user_data_roots@, key_views(selected_user_roots@));
        let ghost p = portable_picks(self.portable_candidates@, key_views(selected_portable_apps@));
        let ghost ins = installed_picks(self.installed_apps@, key_views(selected_installed_app_dirs@));
        let mut tu = Tally { count: 0, files: 0, bytes: 0 };
        let mut i: usize = 0;
        assert(u.take(0) =~= Seq::<Option<crate::models::PathStats>>::empty());
        while i < self.user_data_roots.len()
            invariant
                i <= self.user_data_roots.len(),
                u == user_picks(self.user_data_roots@, key_views(selected_user_roots@)),
                sum_files(u) <= u64::MAX,
                sum_bytes(u) <= u64::MAX,
                tu.count == count_some(u.take(i as int)),
                tu.files == sum_files(u.take(i as int)),
                tu.bytes == sum_bytes(u.take(i as int)),
            decreases self.user_data_roots.len() - i,
        {
            let root = &self.user_data_roots[i];
            let key = path_key(root.path.as_str());
            let pick = if crate::text::strings_contain(selected_user_roots, key.as_str()) {
                Some(root.stats)
            } else {
                None
            };
            tally_step(&mut tu, pick, Ghost(u), Ghost(i as int), Ghost(sum_files(u)), Ghost(sum_bytes(u)));
            i += 1;
        }
        assert(u.take(i as int) == u);
        let mut tp = Tally { count: 0, files: 0, bytes: 0 };
        let mut i: usize = 0;
        assert(p.take(0) =~= Seq::<Option<crate::models::PathStats>>::empty());
        while i < self.portable_candidates.len()
            invariant
                i <= self.portable_candidates.len(),
                p == portable_picks(self.portable_candidates@, key_views(selected_portable_apps@)),
                sum_files(p) <= u64::MAX,
                sum_bytes(p) <= u64::MAX,
                tp.count == count_some(p.take(i as int)),
                tp.files == sum_files(p.take(i as int)),
                tp.bytes == sum_bytes(p.take(i as int)),
            decreases self.portable_candidates.len() - i,
        {
            let cand = &self.portable_candidates[i];
            let key = path_key(cand.root_path.as_str());
            let pick = if crate::text::strings_contain(selected_portable_apps, key.as_str()) {
                Some(cand.stats)
            } else {
                None
            };
            tally_step(&mut tp, pick, Ghost(p), Ghost(i as int), Ghost(sum_files(p)), Ghost(sum_bytes(p)));
            i += 1;
        }
        assert(p.take(i as int) == p);
        let mut ti = Tally { count: 0, files: 0, bytes: 0 };
        let mut i: usize = 0;
        assert(ins.take(0) =~= Seq::<Option<crate::models::PathStats>>::empty());
        while i < self.installed_apps.len()
            invariant
                i <= self.installed_apps.len(),
                ins == installed_picks(self.installed_apps@, key_views(selected_installed_app_dirs@)),
                sum_files(ins) <= u64::MAX,
                sum_bytes(ins) <= u64::MAX,
                ti.count == count_some(ins.take(i as int)),
                ti.files == sum_files(ins.take(i as int)),
                ti.bytes == sum_bytes(ins.take(i as int)),
            decreases self.installed_apps.len() - i,
        {
            let app = &self.installed_apps[i];
            let key = app.selection_key();
            let pick = if crate::text::strings_contain(selected_installed_app_dirs, key.as_str()) {
                app.install_stats
            } else {
                None
            };
            tally_step(&mut ti, pick, Ghost(ins), Ghost(i as int), Ghost(sum_files(ins)), Ghost(sum_bytes(ins)));
            i += 1;
        }
        assert(ins.take(i as int) == ins);
        SelectionSummary {
            selected_user_roots: tu.count,
            selected_portable_apps: tp.count,
            selected_installed_app_dirs: ti.count,
            total_files: tu.files + tp.files + ti.files,
            total_bytes: tu.bytes + tp.bytes + ti.bytes,
        }
    }
}

} // verus!

verus! {

/// The root of the drive with the `i`-th letter from `C` (`C:\` for 0).
pub open spec fn drive_root(i: int) -> Seq<char> {
    seq![((67 + i) as u8) as char, ':', '\\']
}

/// The existing drive roots among the first `k` letters from `C`.
pub open spec fn existing_drive_roots(drive_exists: Seq<bool>, k: int) -> Seq<Seq<char>>
    decreases k,
{
    if k <= 0 {
        seq![]
    } else {
        existing_drive_roots(drive_exists, k - 1) + if k - 1 < drive_exists.len() && drive_exists[k - 1] {
            seq![drive_root(k - 1)]
        } else {
            seq![]
        }
    }
}

/// The default scan roots: the drives `C:\` to `Z:\` that exist, in order, where
/// `drive_exists[i]` tells whether the drive of the `i`-th letter from `C` exists
/// (letters past the end of the slice count as missing).
pub fn default_scan_roots(drive_exists: &[bool]) -> (r: Vec<String>)
    ensures
        key_views(r@) == existing_drive_roots(drive_exists@, 24),
{
    let mut out: Vec<String> = Vec::new();
    let mut i: usize = 0;
    while i < 24
        invariant
            i <= 24,
            key_views(out@) == existing_drive_roots(drive_exists@, i as int),
        decreases 24 - i,
    {
        let ghost before = key_views(out@);
        if i < drive_exists.len() && drive_exists[i] {
            let b: u8 = 67 + (i as u8);
            let mut v: Vec<char> = Vec::new();
            v.push(b as char);
            v.push(':');
            v.push('\\');
            assert(v@ =~= drive_root(i as int));
            out.push(string_from(v.as_slice()));
            assert(key_views(out@) =~= before.push(drive_root(i as int)));
        }
        i += 1;
    }
    out
}

} // verus!
