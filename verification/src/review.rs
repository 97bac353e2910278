//! What the review screens decide: text filters, the summaries of visible and
//! selected roots, the restore roots of a loaded archive and what a reload keeps.
use vstd::prelude::*;
use crate::archive::{ArchiveManifest, ManifestInstalledApp, ManifestPortableApp, ManifestRoot, sanitize_segment, spec_sanitize_segment};
use crate::models::UserDataRoot;
use crate::plan::{path_key, spec_path_key};
use crate::text::{
    chars_of, contains, contains_chars, extend_chars, extend_str, key_views, lowercase_chars, string_from, strings_contain, trim,
    trim_chars, unicode_lowercase,
};

verus! {

/// The text with each `"` doubled.
pub open spec fn double_quotes(s: Seq<char>) -> Seq<char>
    decreases s.len(),
{
    if s.len() == 0 {
        seq![]
    } else {
        double_quotes(s.drop_last()) + if s.last() == '"' {
            seq!['"', '"']
        } else {
            seq![s.last()]
        }
    }
}

pub open spec fn is_csv_special(c: char) -> bool {
    c == ',' || c == '"' || c == '\n' || c == '\r'
}

/// A CSV field: quotes doubled, and the whole wrapped in quotes where it holds a
/// comma, a quote or a line break.
pub open spec fn spec_escape_csv_field(value: Seq<char>) -> Seq<char> {
    let e = double_quotes(value);
    if exists|i: int| 0 <= i < e.len() && is_csv_special(#[trigger] e[i]) {
        seq!['"'] + e + seq!['"']
    } else {
        e
    }
}

pub fn escape_csv_field(value: &str) -> (r: String)
    ensures
        r@ == spec_escape_csv_field(value@),
{
    let v = chars_of(value);
    let mut e: Vec<char> = Vec::new();
    let mut special = false;
    let mut i: usize = 0;
    while i < v.len()
        invariant
            i <= v.len(),
            v@ == value@,
            e@ == double_quotes(v@.take(i as int)),
            special == exists|k: int| 0 <= k < e@.len() && is_csv_special(#[trigger] e@[k]),
        decreases v.len() - i,
    {
        let ghost old_e = e@;
        assert(v@.take(i + 1).drop_last() == v@.take(i as int));
        let c = v[i];
        if c == '"' {
            e.push('"');
            e.push('"');
            special = true;
            assert(e@[old_e.len() as int] == '"');
        } else {
            e.push(c);
            if is_csv_special_exec(c) {
                special = true;
                assert(e@[old_e.len() as int] == c);
            }
        }
        proof {
            assert forall|k: int| 0 <= k < old_e.len() implies e@[k] == old_e[k] by {}
            if !special {
                assert forall|k: int| 0 <= k < e@.len() implies !is_csv_special(#[trigger] e@[k]) by {
                    if k < old_e.len() {
                        assert(e@[k] == old_e[k]);
                    }
                }
            }
        }
        i += 1;
    }
    assert(v@.take(v.len() as int) == v@);
    if special {
        let mut out: Vec<char> = Vec::new();
        out.push('"');
        extend_chars(&mut out, e.as_slice());
        out.push('"');
        assert(out@ =~= seq!['"'] + e@ + seq!['"']);
        string_from(out.as_slice())
    } else {
        string_from(e.as_slice())
    }
}

fn is_csv_special_exec(c: char) -> (r: bool)
    ensures
        r == is_csv_special(c),
{
    c == ',' || c == '"' || c == '\n' || c == '\r'
}

/// One row of the installed-app inventory export.
#[derive(Debug, Clone)]
pub struct InstalledAppExportRow {
    pub display_name: String,
    pub source: String,
    pub install_location: Option<String>,
    pub uninstall_key: String,
}

/// The header line of the installed-app inventory.
pub open spec fn inventory_header() -> Seq<char> {
    "DisplayName,Source,InstallLocation,RegistryKey\n"@
}

/// One inventory line: the four fields escaped, separated by commas, ended by a line
/// break; a missing install location is an empty field.
pub open spec fn inventory_line(row: InstalledAppExportRow) -> Seq<char> {
    let location = match row.install_location {
        Some(l) => l@,
        None => seq![],
    };
    spec_escape_csv_field(row.display_name@) + seq![','] + spec_escape_csv_field(row.source@) + seq![',']
        + spec_escape_csv_field(location) + seq![','] + spec_escape_csv_field(row.uninstall_key@) + seq!['\n']
}

/// The inventory lines of the rows, in order.
pub open spec fn inventory_lines(rows: Seq<InstalledAppExportRow>) -> Seq<char>
    decreases rows.len(),
{
    if rows.len() == 0 {
        seq![]
    } else {
        inventory_lines(rows.drop_last()) + inventory_line(rows.last())
    }
}

/// The CSV text of the installed-app inventory: the header, then one line per row.
/// There is nothing to export, and no text, where there are no rows.
pub fn installed_app_inventory_csv(rows: &[InstalledAppExportRow]) -> (r: Option<String>)
    ensures
        rows.len() == 0 <==> r is None,
        r matches Some(text) ==> text@ == inventory_header() + inventory_lines(rows@),
{
    if rows.len() == 0 {
        return None;
    }
    let mut out: Vec<char> = Vec::new();
    extend_str(&mut out, "DisplayName,Source,InstallLocation,RegistryKey\n");
    let mut i: usize = 0;
    while i < rows.len()
        invariant
            i <= rows.len(),
            out@ == inventory_header() + inventory_lines(rows@.take(i as int)),
        decreases rows.len() - i,
    {
        let row = &rows[i];
        let ghost before = out@;
        let name = escape_csv_field(row.display_name.as_str());
        extend_str(&mut out, name.as_str());
        out.push(',');
        let source = escape_csv_field(row.source.as_str());
        extend_str(&mut out, source.as_str());
        out.push(',');
        let location = match &row.install_location {
            Some(l) => escape_csv_field(l.as_str()),
            None => escape_csv_field(""),
        };
        proof {
            if row.install_location is None {
                reveal_strlit("");
                assert(""@ =~= Seq::<char>::empty());
            }
        }
        extend_str(&mut out, location.as_str());
        out.push(',');
        let key = escape_csv_field(row.uninstall_key.as_str());
        extend_str(&mut out, key.as_str());
        out.push('\n');
        proof {
            assert(out@ =~= before + inventory_line(rows@[i as int]));
            assert(rows@.take(i + 1).drop_last() =~= rows@.take(i as int));
        }
        i += 1;
    }
    assert(rows@.take(rows.len() as int) =~= rows@);
    Some(string_from(out.as_slice()))
}

/// A text filter: the query, trimmed and in Unicode lowercase, is empty or occurs in
/// the Unicode lowercase of one of the fields.
pub open spec fn spec_matches_filter(filter: Seq<char>, fields: Seq<Seq<char>>) -> bool {
    let q = unicode_lowercase(trim(filter));
    q.len() == 0 || exists|j: int| 0 <= j < fields.len() && contains(unicode_lowercase(#[trigger] fields[j]), q)
}

pub open spec fn str_views(fields: Seq<&str>) -> Seq<Seq<char>> {
    fields.map_values(|f: &str| f@)
}

/// Whether any of the fields matches the filter.
pub fn matches_filter(filter: &str, fields: &[&str]) -> (r: bool)
    ensures
        r == spec_matches_filter(filter@, str_views(fields@)),
{
    let f = chars_of(filter);
    let t = trim_chars(f.as_slice());
    let q = lowercase_chars(t.as_slice());
    if q.len() == 0 {
        return true;
    }
    let ghost fv = str_views(fields@);
    let mut j: usize = 0;
    while j < fields.len()
        invariant
            j <= fields.len(),
            fv == str_views(fields@),
            q@ == unicode_lowercase(trim(filter@)),
            forall|k: int| 0 <= k < j ==> !contains(unicode_lowercase(#[trigger] fv[k]), q@),
        decreases fields.len() - j,
    {
        let field = chars_of(fields[j]);
        let low = lowercase_chars(field.as_slice());
        assert(fv[j as int] == fields@[j as int]@);
        if contains_chars(low.as_slice(), q.as_slice()) {
            return true;
        }
        j += 1;
    }
    false
}

/// What a filtered list of roots shows: how many pass the filter, their keys, and how
/// many of those are selected or not.
#[derive(Debug, Clone)]
pub struct RootListSummary {
    pub filtered_count: usize,
    pub visible_keys: Vec<String>,
    pub visible_selected_count: usize,
    pub visible_unselected_count: usize,
}

/// The keys of the visible items among the first `k`, in order.
pub open spec fn visible_keys_prefix(visible: Seq<bool>, keys: Seq<Seq<char>>, k: int) -> Seq<Seq<char>>
    decreases k,
{
    if k <= 0 {
        seq![]
    } else {
        visible_keys_prefix(visible, keys, k - 1) + if visible[k - 1] {
            seq![keys[k - 1]]
        } else {
            seq![]
        }
    }
}

/// How many of the given keys are selected.
pub open spec fn count_selected(keys: Seq<Seq<char>>, selected: Seq<Seq<char>>) -> nat
    decreases keys.len(),
{
    if keys.len() == 0 {
        0
    } else {
        count_selected(keys.drop_last(), selected) + if selected.contains(keys.last()) {
            1nat
        } else {
            0nat
        }
    }
}

/// The summary of a list where `visible[i]` tells whether item `i` passes the filter
/// and `keys[i]` is its key.
pub open spec fn summary_ok(s: RootListSummary, visible: Seq<bool>, keys: Seq<Seq<char>>, selected: Seq<Seq<char>>) -> bool {
    let v = visible_keys_prefix(visible, keys, visible.len() as int);
    &&& key_views(s.visible_keys@) == v
    &&& s.filtered_count == v.len()
    &&& s.visible_selected_count == count_selected(v, selected)
    &&& s.visible_unselected_count == v.len() - count_selected(v, selected)
}

proof fn lemma_count_selected_le(keys: Seq<Seq<char>>, selected: Seq<Seq<char>>)
    ensures
        count_selected(keys, selected) <= keys.len(),
    decreases keys.len(),
{
    if keys.len() > 0 {
        lemma_count_selected_le(keys.drop_last(), selected);
    }
}

proof fn lemma_visible_len(visible: Seq<bool>, keys: Seq<Seq<char>>, k: int)
    requires
        0 <= k,
    ensures
        visible_keys_prefix(visible, keys, k).len() <= k,
    decreases k,
{
    if k > 0 {
        lemma_visible_len(visible, keys, k - 1);
    }
}

/// Builds a summary from the visibility and key of each item.
pub fn summarize_visible(visible: &[bool], keys: &[String], selected: &[String]) -> (r: RootListSummary)
    requires
        visible.len() == keys.len(),
    ensures
        summary_ok(r, visible@, key_views(keys@), key_views(selected@)),
{
    let ghost kv = key_views(keys@);
    let ghost sv = key_views(selected@);
    let mut s = RootListSummary { filtered_count: 0, visible_keys: Vec::new(), visible_selected_count: 0, visible_unselected_count: 0 };
    let mut i: usize = 0;
    while i < visible.len()
        invariant
            i <= visible.len() == keys.len(),
            kv == key_views(keys@),
            sv == key_views(selected@),
            key_views(s.visible_keys@) == visible_keys_prefix(visible@, kv, i as int),
            s.filtered_count == s.visible_keys@.len(),
            s.visible_selected_count == count_selected(key_views(s.visible_keys@), sv),
            s.visible_unselected_count == s.visible_keys@.len() - count_selected(key_views(s.visible_keys@), sv),
            s.visible_keys@.len() <= i,
        decreases visible.len() - i,
    {
        if visible[i] {
            let ghost before = key_views(s.visible_keys@);
            let key = keys[i].clone();
            let sel = strings_contain(selected, key.as_str());
            s.visible_keys.push(key);
            assert(key_views(s.visible_keys@) =~= before.push(kv[i as int]));
            assert(key_views(s.visible_keys@).drop_last() == before);
            proof {
                lemma_count_selected_le(before, sv);
            }
            s.filtered_count += 1;
            if sel {
                s.visible_selected_count += 1;
            } else {
                s.visible_unselected_count += 1;
            }
        }
        i += 1;
    }
    s
}

/// Whether a scanned personal-data root matches the filter: its label, category,
/// reason or path.
pub open spec fn spec_matches_scan_user_root(root: UserDataRoot, filter: Seq<char>) -> bool {
    spec_matches_filter(filter, seq![root.label@, root.category@, root.reason@, root.path@])
}

pub fn matches_scan_user_root(root: &UserDataRoot, filter: &str) -> (r: bool)
    ensures
        r == spec_matches_scan_user_root(*root, filter@),
{
    let fields: [&str; 4] = [root.label.as_str(), root.category.as_str(), root.reason.as_str(), root.path.as_str()];
    let r = matches_filter(filter, fields.as_slice());
    assert(str_views(fields@) =~= seq![root.label@, root.category@, root.reason@, root.path@]);
    r
}

/// Summarizes the scanned personal-data roots that pass the filter, keyed by path key.
pub fn summarize_scan_user_roots(roots: &[UserDataRoot], filter: &str, selected_user_roots: &[String]) -> (r: RootListSummary)
    ensures
        summary_ok(
            r,
            roots@.map_values(|x: UserDataRoot| spec_matches_scan_user_root(x, filter@)),
            roots@.map_values(|x: UserDataRoot| spec_path_key(x.path@)),
            key_views(selected_user_roots@),
        ),
{
    let mut visible: Vec<bool> = Vec::new();
    let mut keys: Vec<String> = Vec::new();
    let mut i: usize = 0;
    while i < roots.len()
        invariant
            i <= roots.len(),
            visible@ == roots@.take(i as int).map_values(|x: UserDataRoot| spec_matches_scan_user_root(x, filter@)),
            key_views(keys@) == roots@.take(i as int).map_values(|x: UserDataRoot| spec_path_key(x.path@)),
        decreases roots.len() - i,
    {
        let ghost kb = key_views(keys@);
        visible.push(matches_scan_user_root(&roots[i], filter));
        keys.push(path_key(roots[i].path.as_str()));
        assert(key_views(keys@) =~= kb.push(spec_path_key(roots@[i as int].path@)));
        i += 1;
        assert(visible@ =~= roots@.take(i as int).map_values(|x: UserDataRoot| spec_matches_scan_user_root(x, filter@)));
        assert(key_views(keys@) =~= roots@.take(i as int).map_values(|x: UserDataRoot| spec_path_key(x.path@)));
    }
    assert(roots@.take(i as int) == roots@);
    summarize_visible(visible.as_slice(), keys.as_slice(), selected_user_roots)
}

} // verus!

verus! {

/// The restore root of a personal-data root recorded in a manifest.
pub open spec fn spec_user_restore_root_key(root: ManifestRoot) -> Seq<char> {
    crate::backup::spec_user_archive_root(root.category@, root.label@)
}

/// The restore root of a portable application recorded in a manifest.
pub open spec fn spec_portable_restore_root_key(app: ManifestPortableApp) -> Seq<char> {
    crate::backup::spec_portable_archive_root(app.display_name@)
}

/// The restore root of an installed application: its archive root, where one was
/// recorded and is not blank.
pub open spec fn spec_installed_app_restore_root_key(app: ManifestInstalledApp) -> Option<Seq<char>> {
    match app.backup_root {
        Some(r) => if trim(r@).len() > 0 {
            Some(r@)
        } else {
            None
        },
        None => None,
    }
}

pub fn user_restore_root_key(root: &ManifestRoot) -> (r: String)
    ensures
        r@ == spec_user_restore_root_key(*root),
{
    crate::backup::user_archive_root(root.category.as_str(), root.label.as_str())
}

pub fn portable_restore_root_key(app: &ManifestPortableApp) -> (r: String)
    ensures
        r@ == spec_portable_restore_root_key(*app),
{
    crate::backup::portable_archive_root(app.display_name.as_str())
}

pub fn installed_app_restore_root_key(app: &ManifestInstalledApp) -> (r: Option<String>)
    ensures
        match r {
            Some(k) => spec_installed_app_restore_root_key(*app) == Some(k@),
            None => spec_installed_app_restore_root_key(*app) is None,
        },
{
    match &app.backup_root {
        Some(root) => {
            let c = chars_of(root.as_str());
            let t = trim_chars(c.as_slice());
            if t.len() > 0 {
                Some(root.clone())
            } else {
                None
            }
        },
        None => None,
    }
}

/// A name made safe as one restore-root component (the archive's own rule).
pub fn sanitize_restore_segment(value: &str) -> (r: String)
    ensures
        r@ == spec_sanitize_segment(value@),
{
    sanitize_segment(value)
}

/// Whether a restore root row shows: hidden where only unselected rows are wanted and
/// it is selected; otherwise shown where a field matches the filter.
pub open spec fn row_shows(key: Seq<char>, fields: Seq<Seq<char>>, filter: Seq<char>, only_unselected: bool, selected: Seq<Seq<char>>) -> bool {
    !(only_unselected && selected.contains(key)) && spec_matches_filter(filter, fields)
}

pub open spec fn spec_matches_restore_user_root(root: ManifestRoot, filter: Seq<char>, only_unselected: bool, selected: Seq<Seq<char>>) -> bool {
    row_shows(spec_user_restore_root_key(root), seq![root.label@, root.category@, root.path@], filter, only_unselected, selected)
}

pub open spec fn spec_matches_restore_portable_app(app: ManifestPortableApp, filter: Seq<char>, only_unselected: bool, selected: Seq<Seq<char>>) -> bool {
    row_shows(
        spec_portable_restore_root_key(app),
        seq![app.display_name@, app.root_path@, app.main_executable@],
        filter,
        only_unselected,
        selected,
    )
}

pub open spec fn installed_location_text(app: ManifestInstalledApp) -> Seq<char> {
    match app.install_location {
        Some(l) => l@,
        None => seq![],
    }
}

pub open spec fn spec_matches_restore_installed_app(app: ManifestInstalledApp, filter: Seq<char>, only_unselected: bool, selected: Seq<Seq<char>>) -> bool {
    match spec_installed_app_restore_root_key(app) {
        Some(k) => row_shows(k, seq![app.display_name@, app.source@, installed_location_text(app)], filter, only_unselected, selected),
        None => false,
    }
}

pub fn matches_restore_user_root(root: &ManifestRoot, filter: &str, only_unselected_roots: bool, selected_restore_roots: &[String]) -> (r: bool)
    ensures
        r == spec_matches_restore_user_root(*root, filter@, only_unselected_roots, key_views(selected_restore_roots@)),
{
    let key = user_restore_root_key(root);
    if only_unselected_roots && strings_contain(selected_restore_roots, key.as_str()) {
        return false;
    }
    let fields: [&str; 3] = [root.label.as_str(), root.category.as_str(), root.path.as_str()];
    let r = matches_filter(filter, fields.as_slice());
    assert(str_views(fields@) =~= seq![root.label@, root.category@, root.path@]);
    r
}

pub fn matches_restore_portable_app(app: &ManifestPortableApp, filter: &str, only_unselected_roots: bool, selected_restore_roots: &[String]) -> (r: bool)
    ensures
        r == spec_matches_restore_portable_app(*app, filter@, only_unselected_roots, key_views(selected_restore_roots@)),
{
    let key = portable_restore_root_key(app);
    if only_unselected_roots && strings_contain(selected_restore_roots, key.as_str()) {
        return false;
    }
    let fields: [&str; 3] = [app.display_name.as_str(), app.root_path.as_str(), app.main_executable.as_str()];
    let r = matches_filter(filter, fields.as_slice());
    assert(str_views(fields@) =~= seq![app.display_name@, app.root_path@, app.main_executable@]);
    r
}

pub fn matches_restore_installed_app(app: &ManifestInstalledApp, filter: &str, only_unselected_roots: bool, selected_restore_roots: &[String]) -> (r: bool)
    ensures
        r == spec_matches_restore_installed_app(*app, filter@, only_unselected_roots, key_views(selected_restore_roots@)),
{
    let key = match installed_app_restore_root_key(app) {
        Some(k) => k,
        None => return false,
    };
    if only_unselected_roots && strings_contain(selected_restore_roots, key.as_str()) {
        return false;
    }
    let location = match &app.install_location {
        Some(l) => l.clone(),
        None => String::new(),
    };
    let fields: [&str; 3] = [app.display_name.as_str(), app.source.as_str(), location.as_str()];
    let r = matches_filter(filter, fields.as_slice());
    assert(str_views(fields@) =~= seq![app.display_name@, app.source@, installed_location_text(*app)]);
    r
}

/// Summarizes the recorded personal-data roots that show, keyed by restore root.
pub fn summarize_restore_user_roots(roots: &[ManifestRoot], filter: &str, only_unselected_roots: bool, selected_restore_roots: &[String]) -> (r: RootListSummary)
    ensures
        summary_ok(
            r,
            roots@.map_values(|x: ManifestRoot| spec_matches_restore_user_root(x, filter@, only_unselected_roots, key_views(selected_restore_roots@))),
            roots@.map_values(|x: ManifestRoot| spec_user_restore_root_key(x)),
            key_views(selected_restore_roots@),
        ),
{
    let ghost sel = key_views(selected_restore_roots@);
    let mut visible: Vec<bool> = Vec::new();
    let mut keys: Vec<String> = Vec::new();
    let mut i: usize = 0;
    while i < roots.len()
        invariant
            i <= roots.len(),
            sel == key_views(selected_restore_roots@),
            visible@ == roots@.take(i as int).map_values(|x: ManifestRoot| spec_matches_restore_user_root(x, filter@, only_unselected_roots, sel)),
            key_views(keys@) == roots@.take(i as int).map_values(|x: ManifestRoot| spec_user_restore_root_key(x)),
        decreases roots.len() - i,
    {
        let ghost kb = key_views(keys@);
        visible.push(matches_restore_user_root(&roots[i], filter, only_unselected_roots, selected_restore_roots));
        keys.push(user_restore_root_key(&roots[i]));
        assert(key_views(keys@) =~= kb.push(spec_user_restore_root_key(roots@[i as int])));
        i += 1;
        assert(visible@ =~= roots@.take(i as int).map_values(|x: ManifestRoot| spec_matches_restore_user_root(x, filter@, only_unselected_roots, sel)));
        assert(key_views(keys@) =~= roots@.take(i as int).map_values(|x: ManifestRoot| spec_user_restore_root_key(x)));
    }
    assert(roots@.take(i as int) == roots@);
    summarize_visible(visible.as_slice(), keys.as_slice(), selected_restore_roots)
}

/// Summarizes the recorded portable applications that show, keyed by restore root.
pub fn summarize_restore_portable_apps(apps: &[ManifestPortableApp], filter: &str, only_unselected_roots: bool, selected_restore_roots: &[String]) -> (r: RootListSummary)
    ensures
        summary_ok(
            r,
            apps@.map_values(|x: ManifestPortableApp| spec_matches_restore_portable_app(x, filter@, only_unselected_roots, key_views(selected_restore_roots@))),
            apps@.map_values(|x: ManifestPortableApp| spec_portable_restore_root_key(x)),
            key_views(selected_restore_roots@),
        ),
{
    let ghost sel = key_views(selected_restore_roots@);
    let mut visible: Vec<bool> = Vec::new();
    let mut keys: Vec<String> = Vec::new();
    let mut i: usize = 0;
    while i < apps.len()
        invariant
            i <= apps.len(),
            sel == key_views(selected_restore_roots@),
            visible@ == apps@.take(i as int).map_values(|x: ManifestPortableApp| spec_matches_restore_portable_app(x, filter@, only_unselected_roots, sel)),
            key_views(keys@) == apps@.take(i as int).map_values(|x: ManifestPortableApp| spec_portable_restore_root_key(x)),
        decreases apps.len() - i,
    {
        let ghost kb = key_views(keys@);
        visible.push(matches_restore_portable_app(&apps[i], filter, only_unselected_roots, selected_restore_roots));
        keys.push(portable_restore_root_key(&apps[i]));
        assert(key_views(keys@) =~= kb.push(spec_portable_restore_root_key(apps@[i as int])));
        i += 1;
        assert(visible@ =~= apps@.take(i as int).map_values(|x: ManifestPortableApp| spec_matches_restore_portable_app(x, filter@, only_unselected_roots, sel)));
        assert(key_views(keys@) =~= apps@.take(i as int).map_values(|x: ManifestPortableApp| spec_portable_restore_root_key(x)));
    }
    assert(apps@.take(i as int) == apps@);
    summarize_visible(visible.as_slice(), keys.as_slice(), selected_restore_roots)
}

pub open spec fn installed_key_or_empty(app: ManifestInstalledApp) -> Seq<char> {
    match spec_installed_app_restore_root_key(app) {
        Some(k) => k,
        None => seq![],
    }
}

/// Summarizes the recorded installed-application folders that show, keyed by
/// restore root (an application without one never shows).
pub fn summarize_restore_installed_app_dirs(apps: &[ManifestInstalledApp], filter: &str, only_unselected_roots: bool, selected_restore_roots: &[String]) -> (r: RootListSummary)
    ensures
        summary_ok(
            r,
            apps@.map_values(|x: ManifestInstalledApp| spec_matches_restore_installed_app(x, filter@, only_unselected_roots, key_views(selected_restore_roots@))),
            apps@.map_values(|x: ManifestInstalledApp| installed_key_or_empty(x)),
            key_views(selected_restore_roots@),
        ),
{
    let ghost sel = key_views(selected_restore_roots@);
    let mut visible: Vec<bool> = Vec::new();
    let mut keys: Vec<String> = Vec::new();
    let mut i: usize = 0;
    while i < apps.len()
        invariant
            i <= apps.len(),
            sel == key_views(selected_restore_roots@),
            visible@ == apps@.take(i as int).map_values(|x: ManifestInstalledApp| spec_matches_restore_installed_app(x, filter@, only_unselected_roots, sel)),
            key_views(keys@) == apps@.take(i as int).map_values(|x: ManifestInstalledApp| installed_key_or_empty(x)),
        decreases apps.len() - i,
    {
        let ghost kb = key_views(keys@);
        visible.push(matches_restore_installed_app(&apps[i], filter, only_unselected_roots, selected_restore_roots));
        let key = match installed_app_restore_root_key(&apps[i]) {
            Some(k) => k,
            None => String::new(),
        };
        keys.push(key);
        assert(key_views(keys@) =~= kb.push(installed_key_or_empty(apps@[i as int])));
        i += 1;
        assert(visible@ =~= apps@.take(i as int).map_values(|x: ManifestInstalledApp| spec_matches_restore_installed_app(x, filter@, only_unselected_roots, sel)));
        assert(key_views(keys@) =~= apps@.take(i as int).map_values(|x: ManifestInstalledApp| installed_key_or_empty(x)));
    }
    assert(apps@.take(i as int) == apps@);
    summarize_visible(visible.as_slice(), keys.as_slice(), selected_restore_roots)
}

} // verus!

verus! {

/// An archive whose manifest has been read.
#[derive(Debug, Clone)]
pub struct LoadedArchive {
    pub path: String,
    pub manifest: ArchiveManifest,
}

/// The installed applications' restore roots, in order.
pub open spec fn installed_root_keys(apps: Seq<ManifestInstalledApp>) -> Seq<Seq<char>>
    decreases apps.len(),
{
    if apps.len() == 0 {
        seq![]
    } else {
        installed_root_keys(apps.drop_last()) + match spec_installed_app_restore_root_key(apps.last()) {
            Some(k) => seq![k],
            None => seq![],
        }
    }
}

/// Every restore root a manifest records: personal-data roots, portable applications,
/// installed-application folders, in that order.
pub open spec fn manifest_root_keys(m: ArchiveManifest) -> Seq<Seq<char>> {
    m.selected_user_roots@.map_values(|r: ManifestRoot| spec_user_restore_root_key(r)) + m.selected_portable_apps@.map_values(
        |a: ManifestPortableApp| spec_portable_restore_root_key(a),
    ) + installed_root_keys(m.installed_apps@)
}

/// The texts with later repeats left out.
pub open spec fn dedupe(s: Seq<Seq<char>>) -> Seq<Seq<char>>
    decreases s.len(),
{
    if s.len() == 0 {
        seq![]
    } else {
        let prev = dedupe(s.drop_last());
        if prev.contains(s.last()) {
            prev
        } else {
            prev.push(s.last())
        }
    }
}

proof fn lemma_dedupe_contains(s: Seq<Seq<char>>, x: Seq<char>)
    ensures
        dedupe(s).contains(x) == s.contains(x),
    decreases s.len(),
{
    if s.len() > 0 {
        lemma_dedupe_contains(s.drop_last(), x);
        if s.contains(x) && !s.drop_last().contains(x) {
            assert(s.last() == x) by {
                let k = choose|k: int| 0 <= k < s.len() && s[k] == x;
                if k < s.len() - 1 {
                    assert(s.drop_last()[k] == x);
                }
            }
        }
        if s.drop_last().contains(x) {
            let k = choose|k: int| 0 <= k < s.drop_last().len() && s.drop_last()[k] == x;
            assert(s[k] == x);
        }
        let prev = dedupe(s.drop_last());
        if !prev.contains(s.last()) && prev.push(s.last()).contains(x) && !prev.contains(x) {
            let k = choose|k: int| 0 <= k < prev.push(s.last()).len() && prev.push(s.last())[k] == x;
            assert(k == prev.len());
        }
        if prev.contains(x) {
            let k = choose|k: int| 0 <= k < prev.len() && prev[k] == x;
            assert(prev.push(s.last())[k] == x);
        }
        if x == s.last() {
            assert(s[s.len() - 1] == x);
            assert(prev.push(s.last())[prev.len() as int] == x);
        }
    }
}

fn push_unique(out: &mut Vec<String>, key: String)
    ensures
        key_views(final(out)@) == if key_views(old(out)@).contains(key@) {
            key_views(old(out)@)
        } else {
            key_views(old(out)@).push(key@)
        },
{
    if !strings_contain(out.as_slice(), key.as_str()) {
        let ghost before = key_views(out@);
        out.push(key);
        assert(key_views(out@) =~= before.push(key@));
    }
}

/// Every restore root the loaded archive records, each once, in order.
pub fn collect_restore_roots(loaded: &LoadedArchive) -> (r: Vec<String>)
    ensures
        key_views(r@) == dedupe(manifest_root_keys(loaded.manifest)),
{
    let m = &loaded.manifest;
    let ghost all = manifest_root_keys(*m);
    let ghost u = m.selected_user_roots@.map_values(|r: ManifestRoot| spec_user_restore_root_key(r));
    let ghost p = m.selected_portable_apps@.map_values(|a: ManifestPortableApp| spec_portable_restore_root_key(a));
    let mut out: Vec<String> = Vec::new();
    let mut i: usize = 0;
    while i < m.selected_user_roots.len()
        invariant
            i <= m.selected_user_roots@.len(),
            u == m.selected_user_roots@.map_values(|r: ManifestRoot| spec_user_restore_root_key(r)),
            key_views(out@) == dedupe(u.take(i as int)),
        decreases m.selected_user_roots@.len() - i,
    {
        push_unique(&mut out, user_restore_root_key(&m.selected_user_roots[i]));
        assert(u.take(i + 1).drop_last() =~= u.take(i as int));
        i += 1;
    }
    assert(u.take(i as int) =~= u);
    let mut i: usize = 0;
    while i < m.selected_portable_apps.len()
        invariant
            i <= m.selected_portable_apps@.len(),
            p == m.selected_portable_apps@.map_values(|a: ManifestPortableApp| spec_portable_restore_root_key(a)),
            key_views(out@) == dedupe(u + p.take(i as int)),
        decreases m.selected_portable_apps@.len() - i,
    {
        push_unique(&mut out, portable_restore_root_key(&m.selected_portable_apps[i]));
        assert((u + p.take(i + 1)).drop_last() =~= u + p.take(i as int));
        assert((u + p.take(i + 1)).last() == p[i as int]);
        i += 1;
    }
    assert(p.take(i as int) =~= p);
    let mut i: usize = 0;
    assert(installed_root_keys(m.installed_apps@.take(0)) =~= Seq::<Seq<char>>::empty());
    assert(u + p + Seq::<Seq<char>>::empty() =~= u + p);
    while i < m.installed_apps.len()
        invariant
            i <= m.installed_apps@.len(),
            key_views(out@) == dedupe(u + p + installed_root_keys(m.installed_apps@.take(i as int))),
        decreases m.installed_apps@.len() - i,
    {
        assert(m.installed_apps@.take(i + 1).drop_last() =~= m.installed_apps@.take(i as int));
        match installed_app_restore_root_key(&m.installed_apps[i]) {
            Some(k) => {
                push_unique(&mut out, k);
                assert((u + p + installed_root_keys(m.installed_apps@.take(i + 1))).drop_last() =~= u + p + installed_root_keys(
                    m.installed_apps@.take(i as int),
                ));
            },
            None => {
                assert(u + p + installed_root_keys(m.installed_apps@.take(i + 1)) =~= u + p + installed_root_keys(
                    m.installed_apps@.take(i as int),
                ));
            },
        }
        i += 1;
    }
    assert(m.installed_apps@.take(i as int) =~= m.installed_apps@);
    out
}

/// The saved roots that the loaded archive still records, in order; nothing where no
/// archive is loaded.
pub fn retained_restore_roots(loaded: Option<&LoadedArchive>, saved_roots: &[String]) -> (r: Vec<String>)
    ensures
        match loaded {
            None => r@.len() == 0,
            Some(l) => key_views(r@) == key_views(saved_roots@).filter(|k: Seq<char>| manifest_root_keys(l.manifest).contains(k)),
        },
{
    let l = match loaded {
        Some(l) => l,
        None => return Vec::new(),
    };
    let allowed = collect_restore_roots(l);
    let ghost all = manifest_root_keys(l.manifest);
    let ghost sv = key_views(saved_roots@);
    let mut out: Vec<String> = Vec::new();
    let mut i: usize = 0;
    while i < saved_roots.len()
        invariant
            i <= saved_roots@.len(),
            sv == key_views(saved_roots@),
            key_views(allowed@) == dedupe(all),
            key_views(out@) == sv.take(i as int).filter(|k: Seq<char>| all.contains(k)),
        decreases saved_roots@.len() - i,
    {
        let ghost before = key_views(out@);
        assert(sv.take(i + 1).drop_last() =~= sv.take(i as int));
        assert(sv.take(i + 1).last() == saved_roots@[i as int]@);
        proof {
            lemma_dedupe_contains(all, saved_roots@[i as int]@);
            reveal(Seq::filter);
        }
        if strings_contain(allowed.as_slice(), saved_roots[i].as_str()) {
            out.push(saved_roots[i].clone());
            assert(key_views(out@) =~= before.push(saved_roots@[i as int]@));
        }
        i += 1;
    }
    assert(sv.take(i as int) =~= sv);
    out
}

/// Two archive paths name the same archive: equal ignoring ASCII case.
pub open spec fn spec_same_archive_path(left: Seq<char>, right: Seq<char>) -> bool {
    crate::text::lower(left) == crate::text::lower(right)
}

pub fn same_archive_path(left: &str, right: &str) -> (r: bool)
    ensures
        r == spec_same_archive_path(left@, right@),
{
    let l = chars_of(left);
    let r = chars_of(right);
    let ll = crate::text::lower_chars(l.as_slice());
    let rl = crate::text::lower_chars(r.as_slice());
    crate::text::chars_eq(ll.as_slice(), rl.as_slice())
}

/// The restore roots selected after an archive is loaded: reloading the same archive
/// keeps the previous selection where the archive still records it; any other archive
/// starts with all its roots selected.
pub fn restore_roots_for_loaded_archive(loaded: &LoadedArchive, previous_archive_path: Option<&str>, previous_roots: &[String]) -> (r: Vec<String>)
    ensures
        (previous_archive_path matches Some(p) && spec_same_archive_path(p@, loaded.path@)) ==> key_views(r@) == key_views(
            previous_roots@,
        ).filter(|k: Seq<char>| manifest_root_keys(loaded.manifest).contains(k)),
        !(previous_archive_path matches Some(p) && spec_same_archive_path(p@, loaded.path@)) ==> key_views(r@) == dedupe(
            manifest_root_keys(loaded.manifest),
        ),
{
    let same = match previous_archive_path {
        Some(p) => same_archive_path(p, loaded.path.as_str()),
        None => false,
    };
    if same {
        retained_restore_roots(Some(loaded), previous_roots)
    } else {
        collect_restore_roots(loaded)
    }
}

/// A reload never selects a root the loaded archive does not record.
pub proof fn law_reload_selects_only_recorded_roots(loaded: LoadedArchive, previous_archive_path: Option<Seq<char>>, previous_roots: Seq<Seq<char>>, selected: Seq<Seq<char>>, k: Seq<char>)
    requires
        (previous_archive_path matches Some(p) && spec_same_archive_path(p, loaded.path@)) ==> selected == previous_roots.filter(
            |x: Seq<char>| manifest_root_keys(loaded.manifest).contains(x),
        ),
        !(previous_archive_path matches Some(p) && spec_same_archive_path(p, loaded.path@)) ==> selected == dedupe(
            manifest_root_keys(loaded.manifest),
        ),
        selected.contains(k),
    ensures
        manifest_root_keys(loaded.manifest).contains(k),
{
    lemma_dedupe_contains(manifest_root_keys(loaded.manifest), k);
    if previous_archive_path matches Some(p) && spec_same_archive_path(p, loaded.path@) {
        let all = manifest_root_keys(loaded.manifest);
        let j = choose|j: int| 0 <= j < selected.len() && selected[j] == k;
        let pred = |x: Seq<char>| all.contains(x);
        assert(previous_roots.filter(pred)[j] == k);
        previous_roots.lemma_filter_pred(pred, j);
    }
}

} // verus!

verus! {

/// Whether a root belongs to a category the restore includes.
pub open spec fn category_enabled(root: Seq<char>, restore_user_data: bool, restore_portable_apps: bool, restore_installed_app_dirs: bool) -> bool {
    (restore_user_data && crate::text::starts_with(root, "user/"@)) || (restore_portable_apps && crate::text::starts_with(
        root,
        "portable/"@,
    )) || (restore_installed_app_dirs && crate::text::starts_with(root, "installed/"@))
}

/// The selected roots a restore acts on: those the archive records, in a category
/// the restore includes.
pub fn effective_restore_roots(
    loaded: &LoadedArchive,
    restore_user_data: bool,
    restore_portable_apps: bool,
    restore_installed_app_dirs: bool,
    selected_roots: &[String],
) -> (r: Vec<String>)
    ensures
        key_views(r@) == key_views(selected_roots@).filter(
            |k: Seq<char>|
                manifest_root_keys(loaded.manifest).contains(k) && category_enabled(
                    k,
                    restore_user_data,
                    restore_portable_apps,
                    restore_installed_app_dirs,
                ),
        ),
{
    let available = collect_restore_roots(loaded);
    let ghost all = manifest_root_keys(loaded.manifest);
    let ghost pred = |k: Seq<char>| all.contains(k) && category_enabled(k, restore_user_data, restore_portable_apps, restore_installed_app_dirs);
    let ghost sv = key_views(selected_roots@);
    let mut out: Vec<String> = Vec::new();
    let mut i: usize = 0;
    while i < selected_roots.len()
        invariant
            i <= selected_roots@.len(),
            sv == key_views(selected_roots@),
            key_views(available@) == dedupe(all),
            all == manifest_root_keys(loaded.manifest),
            pred == (|k: Seq<char>| all.contains(k) && category_enabled(k, restore_user_data, restore_portable_apps, restore_installed_app_dirs)),
            key_views(out@) == sv.take(i as int).filter(pred),
        decreases selected_roots@.len() - i,
    {
        let ghost before = key_views(out@);
        let root = &selected_roots[i];
        assert(sv.take(i + 1).drop_last() =~= sv.take(i as int));
        assert(sv.take(i + 1).last() == root@);
        proof {
            lemma_dedupe_contains(all, root@);
            reveal(Seq::filter);
        }
        let rc = chars_of(root.as_str());
        let enabled = (restore_user_data && crate::text::starts_with_str(rc.as_slice(), "user/")) || (restore_portable_apps
            && crate::text::starts_with_str(rc.as_slice(), "portable/")) || (restore_installed_app_dirs
            && crate::text::starts_with_str(rc.as_slice(), "installed/"));
        if strings_contain(available.as_slice(), root.as_str()) && enabled {
            out.push(root.clone());
            assert(key_views(out@) =~= before.push(root@));
        }
        i += 1;
    }
    assert(sv.take(i as int) =~= sv);
    out
}

/// A restore never acts on a root that was not selected or that the archive does not
/// record.
pub proof fn law_effective_roots_selected_and_recorded(
    loaded: LoadedArchive,
    restore_user_data: bool,
    restore_portable_apps: bool,
    restore_installed_app_dirs: bool,
    selected: Seq<Seq<char>>,
    k: Seq<char>,
)
    requires
        selected.filter(
            |x: Seq<char>|
                manifest_root_keys(loaded.manifest).contains(x) && category_enabled(
                    x,
                    restore_user_data,
                    restore_portable_apps,
                    restore_installed_app_dirs,
                ),
        ).contains(k),
    ensures
        selected.contains(k),
        manifest_root_keys(loaded.manifest).contains(k),
        category_enabled(k, restore_user_data, restore_portable_apps, restore_installed_app_dirs),
{
    let all = manifest_root_keys(loaded.manifest);
    let pred = |x: Seq<char>| all.contains(x) && category_enabled(x, restore_user_data, restore_portable_apps, restore_installed_app_dirs);
    selected.lemma_filter_contains_rev(pred, k);
    let f = selected.filter(pred);
    let j = choose|j: int| 0 <= j < f.len() && f[j] == k;
    selected.lemma_filter_pred(pred, j);
}

/// What a restore of the chosen roots would cover.
#[derive(Debug, Clone, Copy)]
pub struct RestorePreviewSummary {
    pub selected_root_count: usize,
    pub selected_user_root_count: usize,
    pub selected_portable_app_count: usize,
    pub selected_installed_app_dir_count: usize,
    pub selected_file_count: usize,
    pub selected_bytes: u64,
}

pub open spec fn count_true(s: Seq<bool>) -> nat
    decreases s.len(),
{
    if s.len() == 0 {
        0
    } else {
        count_true(s.drop_last()) + if s.last() {
            1nat
        } else {
            0nat
        }
    }
}

/// An archive path lies under one of the roots.
pub open spec fn covered_by_any(path: Seq<char>, roots: Seq<Seq<char>>) -> bool {
    exists|j: int| 0 <= j < roots.len() && crate::archive::root_covers(path, #[trigger] roots[j])
}

/// The number and total size of the files under the roots, among the first `k`.
pub open spec fn covered_files(files: Seq<crate::archive::ArchivedFileEntry>, roots: Seq<Seq<char>>, k: int) -> (nat, nat)
    decreases k,
{
    if k <= 0 {
        (0, 0)
    } else {
        let prev = covered_files(files, roots, k - 1);
        if covered_by_any(files[k - 1].archive_path@, roots) {
            (prev.0 + 1, prev.1 + files[k - 1].original_size as nat)
        } else {
            prev
        }
    }
}

proof fn lemma_count_true_le(s: Seq<bool>)
    ensures
        count_true(s) <= s.len(),
    decreases s.len(),
{
    if s.len() > 0 {
        lemma_count_true_le(s.drop_last());
    }
}

proof fn lemma_covered_le(files: Seq<crate::archive::ArchivedFileEntry>, roots: Seq<Seq<char>>, k: int)
    requires
        0 <= k,
    ensures
        covered_files(files, roots, k).0 <= k,
    decreases k,
{
    if k > 0 {
        lemma_covered_le(files, roots, k - 1);
    }
}

proof fn lemma_covered_bytes_mono(files: Seq<crate::archive::ArchivedFileEntry>, roots: Seq<Seq<char>>, k: int, m: int)
    requires
        0 <= k <= m,
    ensures
        covered_files(files, roots, k).1 <= covered_files(files, roots, m).1,
    decreases m - k,
{
    if k < m {
        lemma_covered_bytes_mono(files, roots, k, m - 1);
    }
}

fn count_in(keys: &Vec<String>, roots: &[String]) -> (r: usize)
    ensures
        r == count_true(key_views(keys@).map_values(|k: Seq<char>| key_views(roots@).contains(k))),
{
    let ghost flags = key_views(keys@).map_values(|k: Seq<char>| key_views(roots@).contains(k));
    let mut n: usize = 0;
    let mut i: usize = 0;
    while i < keys.len()
        invariant
            i <= keys@.len(),
            flags == key_views(keys@).map_values(|k: Seq<char>| key_views(roots@).contains(k)),
            n == count_true(flags.take(i as int)),
            n <= i,
        decreases keys@.len() - i,
    {
        assert(flags.take(i + 1).drop_last() =~= flags.take(i as int));
        proof {
            lemma_count_true_le(flags.take(i as int));
        }
        if strings_contain(roots, keys[i].as_str()) {
            n += 1;
        }
        i += 1;
    }
    assert(flags.take(i as int) =~= flags);
    n
}

/// Summarizes a restore of the given roots: how many recorded roots of each kind are
/// chosen, and how many files, of how many bytes, lie under them.
pub fn build_restore_preview_summary(loaded: &LoadedArchive, effective_roots: &[String]) -> (r: RestorePreviewSummary)
    requires
        covered_files(loaded.manifest.files@, key_views(effective_roots@), loaded.manifest.files@.len() as int).1 <= u64::MAX,
        loaded.manifest.selected_user_roots@.len() + loaded.manifest.selected_portable_apps@.len()
            + loaded.manifest.installed_apps@.len() <= usize::MAX,
    ensures
        r.selected_user_root_count == count_true(
            loaded.manifest.selected_user_roots@.map_values(|x: ManifestRoot| key_views(effective_roots@).contains(spec_user_restore_root_key(x))),
        ),
        r.selected_portable_app_count == count_true(
            loaded.manifest.selected_portable_apps@.map_values(
                |x: ManifestPortableApp| key_views(effective_roots@).contains(spec_portable_restore_root_key(x)),
            ),
        ),
        r.selected_installed_app_dir_count == count_true(
            installed_root_keys(loaded.manifest.installed_apps@).map_values(|k: Seq<char>| key_views(effective_roots@).contains(k)),
        ),
        r.selected_root_count == r.selected_user_root_count + r.selected_portable_app_count + r.selected_installed_app_dir_count,
        r.selected_file_count == covered_files(loaded.manifest.files@, key_views(effective_roots@), loaded.manifest.files@.len() as int).0,
        r.selected_bytes == covered_files(loaded.manifest.files@, key_views(effective_roots@), loaded.manifest.files@.len() as int).1,
{
    let m = &loaded.manifest;
    let ghost ev = key_views(effective_roots@);
    let mut ukeys: Vec<String> = Vec::new();
    let mut i: usize = 0;
    while i < m.selected_user_roots.len()
        invariant
            i <= m.selected_user_roots@.len(),
            key_views(ukeys@) == m.selected_user_roots@.take(i as int).map_values(|x: ManifestRoot| spec_user_restore_root_key(x)),
        decreases m.selected_user_roots@.len() - i,
    {
        let ghost b = key_views(ukeys@);
        ukeys.push(user_restore_root_key(&m.selected_user_roots[i]));
        assert(key_views(ukeys@) =~= b.push(spec_user_restore_root_key(m.selected_user_roots@[i as int])));
        i += 1;
        assert(key_views(ukeys@) =~= m.selected_user_roots@.take(i as int).map_values(|x: ManifestRoot| spec_user_restore_root_key(x)));
    }
    assert(m.selected_user_roots@.take(i as int) =~= m.selected_user_roots@);
    let users = count_in(&ukeys, effective_roots);
    assert(key_views(ukeys@).map_values(|k: Seq<char>| ev.contains(k)) =~= m.selected_user_roots@.map_values(
        |x: ManifestRoot| ev.contains(spec_user_restore_root_key(x)),
    ));
    let mut pkeys: Vec<String> = Vec::new();
    let mut i: usize = 0;
    while i < m.selected_portable_apps.len()
        invariant
            i <= m.selected_portable_apps@.len(),
            key_views(pkeys@) == m.selected_portable_apps@.take(i as int).map_values(|x: ManifestPortableApp| spec_portable_restore_root_key(x)),
        decreases m.selected_portable_apps@.len() - i,
    {
        let ghost b = key_views(pkeys@);
        pkeys.push(portable_restore_root_key(&m.selected_portable_apps[i]));
        assert(key_views(pkeys@) =~= b.push(spec_portable_restore_root_key(m.selected_portable_apps@[i as int])));
        i += 1;
        assert(key_views(pkeys@) =~= m.selected_portable_apps@.take(i as int).map_values(
            |x: ManifestPortableApp| spec_portable_restore_root_key(x),
        ));
    }
    assert(m.selected_portable_apps@.take(i as int) =~= m.selected_portable_apps@);
    let portables = count_in(&pkeys, effective_roots);
    assert(key_views(pkeys@).map_values(|k: Seq<char>| ev.contains(k)) =~= m.selected_portable_apps@.map_values(
        |x: ManifestPortableApp| ev.contains(spec_portable_restore_root_key(x)),
    ));
    let mut ikeys: Vec<String> = Vec::new();
    let mut i: usize = 0;
    assert(installed_root_keys(m.installed_apps@.take(0)) =~= Seq::<Seq<char>>::empty());
    while i < m.installed_apps.len()
        invariant
            i <= m.installed_apps@.len(),
            key_views(ikeys@) == installed_root_keys(m.installed_apps@.take(i as int)),
            ikeys@.len() <= i,
        decreases m.installed_apps@.len() - i,
    {
        assert(m.installed_apps@.take(i + 1).drop_last() =~= m.installed_apps@.take(i as int));
        let ghost b = key_views(ikeys@);
        match installed_app_restore_root_key(&m.installed_apps[i]) {
            Some(k) => {
                ikeys.push(k);
                assert(key_views(ikeys@) =~= b.push(k@));
            },
            None => {},
        }
        i += 1;
    }
    assert(m.installed_apps@.take(i as int) =~= m.installed_apps@);
    let installed = count_in(&ikeys, effective_roots);
    proof {
        lemma_count_true_le(key_views(ukeys@).map_values(|k: Seq<char>| ev.contains(k)));
        lemma_count_true_le(key_views(pkeys@).map_values(|k: Seq<char>| ev.contains(k)));
        lemma_count_true_le(key_views(ikeys@).map_values(|k: Seq<char>| ev.contains(k)));
        assert(key_views(ukeys@).len() == m.selected_user_roots@.len());
        assert(key_views(pkeys@).len() == m.selected_portable_apps@.len());
    }
    let mut file_count: usize = 0;
    let mut bytes: u64 = 0;
    let ghost total = covered_files(m.files@, ev, m.files@.len() as int).1;
    let mut i: usize = 0;
    while i < m.files.len()
        invariant
            i <= m.files@.len(),
            ev == key_views(effective_roots@),
            total == covered_files(m.files@, ev, m.files@.len() as int).1,
            total <= u64::MAX,
            (file_count as nat, bytes as nat) == covered_files(m.files@, ev, i as int),
        decreases m.files@.len() - i,
    {
        proof {
            lemma_covered_le(m.files@, ev, i as int);
            lemma_covered_bytes_mono(m.files@, ev, i + 1, m.files@.len() as int);
        }
        let entry = &m.files[i];
        let p = chars_of(entry.archive_path.as_str());
        let mut covered = false;
        let mut j: usize = 0;
        while j < effective_roots.len()
            invariant
                j <= effective_roots@.len(),
                ev == key_views(effective_roots@),
                p@ == entry.archive_path@,
                covered == exists|k: int| 0 <= k < j && crate::archive::root_covers(p@, #[trigger] ev[k]),
            decreases effective_roots@.len() - j,
        {
            let rc = chars_of(effective_roots[j].as_str());
            assert(ev[j as int] == rc@);
            if crate::archive::root_covers_exec(p.as_slice(), rc.as_slice()) {
                covered = true;
            }
            j += 1;
        }
        if covered {
            file_count += 1;
            bytes += entry.original_size;
        }
        i += 1;
    }
    RestorePreviewSummary {
        selected_root_count: users + portables + installed,
        selected_user_root_count: users,
        selected_portable_app_count: portables,
        selected_installed_app_dir_count: installed,
        selected_file_count: file_count,
        selected_bytes: bytes,
    }
}

} // verus!

verus! {

/// The restore destination after an archive is loaded: reloading the same archive
/// keeps a non-blank previous destination (trimmed); otherwise the archive's default
/// restore folder, or nothing where neither a profile nor a current folder is known.
pub open spec fn spec_restore_destination(
    archive_path: Seq<char>,
    same_archive_reload: bool,
    previous_destination: Seq<char>,
    profile: Option<Seq<char>>,
    current_dir: Option<Seq<char>>,
) -> Seq<char> {
    if same_archive_reload && trim(previous_destination).len() > 0 {
        trim(previous_destination)
    } else if profile is None && current_dir is None {
        seq![]
    } else {
        crate::backup::spec_default_restore_dir(
            archive_path,
            profile,
            match current_dir {
                Some(c) => c,
                None => seq![],
            },
        )
    }
}

pub fn restore_destination_for_loaded_archive(
    archive_path: &str,
    same_archive_reload: bool,
    previous_destination: &str,
    profile: Option<&str>,
    current_dir: Option<&str>,
) -> (r: String)
    ensures
        r@ == spec_restore_destination(
            archive_path@,
            same_archive_reload,
            previous_destination@,
            crate::config::opt_view(profile),
            crate::config::opt_view(current_dir),
        ),
{
    let prev = chars_of(previous_destination);
    let t = trim_chars(prev.as_slice());
    if same_archive_reload && t.len() > 0 {
        return string_from(t.as_slice());
    }
    if profile.is_none() && current_dir.is_none() {
        return String::new();
    }
    let cwd = match current_dir {
        Some(c) => c,
        None => "",
    };
    crate::backup::default_restore_dir(archive_path, profile, cwd)
}

/// The restore text filter after a load: kept on a reload of the same archive,
/// cleared otherwise.
pub fn restore_text_filter_for_loaded_archive(same_archive_reload: bool, previous_filter: &str) -> (r: String)
    ensures
        r@ == if same_archive_reload {
            previous_filter@
        } else {
            Seq::<char>::empty()
        },
{
    if same_archive_reload {
        previous_filter.to_string()
    } else {
        String::new()
    }
}

/// The parts of the restore screen.
#[derive(Debug, Clone, Copy, PartialEq, Eq, Structural)]
pub enum RestoreSection {
    InstalledApps,
    RestoreScope,
    RestoreAction,
}

impl Default for RestoreSection {
    fn default() -> (r: Self)
        ensures
            r == RestoreSection::RestoreScope,
    {
        RestoreSection::RestoreScope
    }
}

/// The restore section after a load: kept on a reload of the same archive, the scope
/// otherwise.
pub fn restore_section_for_loaded_archive(same_archive_reload: bool, previous_section: RestoreSection) -> (r: RestoreSection)
    ensures
        r == if same_archive_reload {
            previous_section
        } else {
            RestoreSection::RestoreScope
        },
{
    if same_archive_reload {
        previous_section
    } else {
        RestoreSection::RestoreScope
    }
}

/// The restore flags (user data, portable apps, installed-app folders, skip existing
/// files) after a load: kept on a reload of the same archive, the defaults otherwise.
pub fn restore_flags_for_loaded_archive(
    same_archive_reload: bool,
    previous_restore_user_data: bool,
    previous_restore_portable_apps: bool,
    previous_restore_installed_app_dirs: bool,
    previous_skip_existing_restore_files: bool,
) -> (r: (bool, bool, bool, bool))
    ensures
        r == if same_archive_reload {
            (
                previous_restore_user_data,
                previous_restore_portable_apps,
                previous_restore_installed_app_dirs,
                previous_skip_existing_restore_files,
            )
        } else {
            (true, true, true, false)
        },
{
    if same_archive_reload {
        (
            previous_restore_user_data,
            previous_restore_portable_apps,
            previous_restore_installed_app_dirs,
            previous_skip_existing_restore_files,
        )
    } else {
        (true, true, true, false)
    }
}

/// How a portable candidate is described: a single executable where its root is its
/// main executable (ignoring ASCII case), a folder otherwise.
pub fn portable_candidate_kind(root_path: &str, main_executable: &str) -> (r: &'static str)
    ensures
        r@ == if spec_same_archive_path(root_path@, main_executable@) {
            "单文件可执行程序"@
        } else {
            "目录型便携软件"@
        },
{
    if same_archive_path(root_path, main_executable) {
        "单文件可执行程序"
    } else {
        "目录型便携软件"
    }
}

/// The pages of the backup workflow.
#[derive(Debug, Clone, Copy, PartialEq, Eq, Structural)]
pub enum BackupWorkflowPage {
    ScanScope,
    UserData,
    PortableApps,
    InstalledApps,
    Output,
}

impl Default for BackupWorkflowPage {
    fn default() -> (r: Self)
        ensures
            r == BackupWorkflowPage::ScanScope,
    {
        BackupWorkflowPage::ScanScope
    }
}

/// The first page with something to review: personal data, then portable
/// applications, then installed applications; the scan scope where a scan found nothing.
pub fn first_available_backup_page(preview: &crate::plan::BackupPreview) -> (r: BackupWorkflowPage)
    ensures
        r == if preview.user_data_roots@.len() > 0 {
            BackupWorkflowPage::UserData
        } else if preview.portable_candidates@.len() > 0 {
            BackupWorkflowPage::PortableApps
        } else if preview.installed_apps@.len() > 0 {
            BackupWorkflowPage::InstalledApps
        } else {
            BackupWorkflowPage::ScanScope
        },
{
    if preview.user_data_roots.len() > 0 {
        BackupWorkflowPage::UserData
    } else if preview.portable_candidates.len() > 0 {
        BackupWorkflowPage::PortableApps
    } else if preview.installed_apps.len() > 0 {
        BackupWorkflowPage::InstalledApps
    } else {
        BackupWorkflowPage::ScanScope
    }
}

/// The workspaces of the application.
#[derive(Debug, Clone, Copy, PartialEq, Eq, Structural)]
pub enum WorkspaceView {
    Overview,
    ScanPlan,
    Restore,
}

impl Default for WorkspaceView {
    fn default() -> (r: Self)
        ensures
            r == WorkspaceView::Overview,
    {
        WorkspaceView::Overview
    }
}

/// The workspace to show: the one requested, whatever has been scanned or loaded.
pub fn resolved_workspace(requested: WorkspaceView, has_preview: bool, has_loaded_archive: bool) -> (r: WorkspaceView)
    ensures
        r == requested,
{
    requested
}

/// What is shown for a restore error message: the explanation of the first marker it
/// contains, or the message itself.
pub open spec fn spec_present_restore_error(m: Seq<char>) -> Seq<char> {
    if contains(m, "restore target already exists:"@) {
        "恢复中止：目标目录里已经有同名文件。可以改用新的恢复目录，或启用“跳过已存在文件”。"@
    } else if contains(m, "Archive does not contain any files to restore."@) {
        "当前恢复范围里没有可写出的文件。请先检查恢复范围选择。"@
    } else if contains(m, "restore destination is an existing file:"@) {
        "恢复目标无效：你选择的是一个文件，不是目录。请改成文件夹路径。"@
    } else if contains(m, "restore destination is blocked by existing file:"@) || contains(
        m,
        "restore target is blocked by existing file:"@,
    ) {
        "恢复目标无效：目标路径中有某一层已经是文件，无法继续创建目录。请改用别的恢复位置。"@
    } else if contains(m, "restore target path is duplicated in archive:"@) {
        "归档内容校验失败：存在重复的恢复目标路径，已阻止本次恢复。"@
    } else if contains(m, "failed to create restore destination"@) {
        "无法创建恢复目录。请检查目标路径是否可写。"@
    } else if contains(m, "escapes restore root"@) {
        "归档内容校验失败：发现了越界路径，WinRehome 已阻止这次恢复。"@
    } else {
        m
    }
}

/// What is shown for a backup error message: the explanation of the first marker it
/// contains, or the message itself.
pub open spec fn spec_present_backup_error(m: Seq<char>) -> Seq<char> {
    if contains(m, "backup output path is an existing file:"@) {
        "备份输出路径无效：你选中了一个文件，不是目录。请改成文件夹路径。"@
    } else if contains(m, "backup output path is blocked by existing file:"@) {
        "备份输出路径无效：目标路径中有某一层已经是文件，无法继续创建目录。"@
    } else if contains(m, "backup output path overlaps selected source directory:"@) {
        "备份输出路径无效：备份目录落在已选源目录里面，会和源数据混在一起。请换一个目录。"@
    } else if contains(m, "duplicate archive entry path:"@) {
        "备份内容存在重复目标路径，已阻止生成归档。请调整选择范围后重试。"@
    } else if contains(m, "No files are selected for backup."@) {
        "当前没有可打包的内容。请先选择至少一个用户目录或便携软件。"@
    } else if contains(m, "failed to create backup output directory"@) {
        "无法创建备份目录。请检查目标路径是否可写。"@
    } else if contains(m, "failed to create"@) {
        "无法写入备份归档。请检查目标目录是否可写，或确认同名文件没有被占用。"@
    } else {
        m
    }
}

fn message_has(m: &[char], marker: &str) -> (r: bool)
    ensures
        r == contains(m@, marker@),
{
    crate::text::contains_str(m, marker)
}

/// What is shown for a restore error message: a plain explanation for the errors it
/// recognizes, the message itself otherwise.
pub fn present_restore_error(message: &str) -> (r: String)
    ensures
        r@ == spec_present_restore_error(message@),
{
    let m = chars_of(message);
    let m = m.as_slice();
    if message_has(m, "restore target already exists:") {
        "恢复中止：目标目录里已经有同名文件。可以改用新的恢复目录，或启用“跳过已存在文件”。".to_string()
    } else if message_has(m, "Archive does not contain any files to restore.") {
        "当前恢复范围里没有可写出的文件。请先检查恢复范围选择。".to_string()
    } else if message_has(m, "restore destination is an existing file:") {
        "恢复目标无效：你选择的是一个文件，不是目录。请改成文件夹路径。".to_string()
    } else if message_has(m, "restore destination is blocked by existing file:") || message_has(
        m,
        "restore target is blocked by existing file:",
    ) {
        "恢复目标无效：目标路径中有某一层已经是文件，无法继续创建目录。请改用别的恢复位置。".to_string()
    } else if message_has(m, "restore target path is duplicated in archive:") {
        "归档内容校验失败：存在重复的恢复目标路径，已阻止本次恢复。".to_string()
    } else if message_has(m, "failed to create restore destination") {
        "无法创建恢复目录。请检查目标路径是否可写。".to_string()
    } else if message_has(m, "escapes restore root") {
        "归档内容校验失败：发现了越界路径，WinRehome 已阻止这次恢复。".to_string()
    } else {
        message.to_string()
    }
}

/// What is shown for a backup error message: a plain explanation for the errors it
/// recognizes, the message itself otherwise.
pub fn present_backup_error(message: &str) -> (r: String)
    ensures
        r@ == spec_present_backup_error(message@),
{
    let m = chars_of(message);
    let m = m.as_slice();
    if message_has(m, "backup output path is an existing file:") {
        "备份输出路径无效：你选中了一个文件，不是目录。请改成文件夹路径。".to_string()
    } else if message_has(m, "backup output path is blocked by existing file:") {
        "备份输出路径无效：目标路径中有某一层已经是文件，无法继续创建目录。".to_string()
    } else if message_has(m, "backup output path overlaps selected source directory:") {
        "备份输出路径无效：备份目录落在已选源目录里面，会和源数据混在一起。请换一个目录。".to_string()
    } else if message_has(m, "duplicate archive entry path:") {
        "备份内容存在重复目标路径，已阻止生成归档。请调整选择范围后重试。".to_string()
    } else if message_has(m, "No files are selected for backup.") {
        "当前没有可打包的内容。请先选择至少一个用户目录或便携软件。".to_string()
    } else if message_has(m, "failed to create backup output directory") {
        "无法创建备份目录。请检查目标路径是否可写。".to_string()
    } else if message_has(m, "failed to create") {
        "无法写入备份归档。请检查目标目录是否可写，或确认同名文件没有被占用。".to_string()
    } else {
        message.to_string()
    }
}

} // verus!

verus! {

/// A folder the file picker opens at: the trimmed input where it is a folder
/// (`is_dir`, checked by the caller on the trimmed input), its parent otherwise;
/// nothing for blank input.
pub open spec fn spec_path_for_picker(value: Seq<char>, is_dir: bool) -> Option<Seq<char>> {
    let t = trim(value);
    if t.len() == 0 {
        None
    } else if is_dir {
        Some(t)
    } else {
        crate::winpath::parent(t)
    }
}

fn opt_chars_to_string(o: Option<Vec<char>>) -> (r: Option<String>)
    ensures
        match r {
            Some(s) => o matches Some(v) && s@ == v@,
            None => o is None,
        },
{
    match o {
        Some(v) => Some(string_from(v.as_slice())),
        None => None,
    }
}

pub fn path_for_picker(current_value: &str, is_dir: bool) -> (r: Option<String>)
    ensures
        match r {
            Some(s) => spec_path_for_picker(current_value@, is_dir) == Some(s@),
            None => spec_path_for_picker(current_value@, is_dir) is None,
        },
{
    let v = chars_of(current_value);
    let t = trim_chars(v.as_slice());
    if t.len() == 0 {
        return None;
    }
    if is_dir {
        return Some(string_from(t.as_slice()));
    }
    opt_chars_to_string(crate::winpath::parent_exec(t.as_slice()))
}

/// The trimmed input where it names a folder (`is_dir`, checked by the caller on the
/// trimmed input); nothing for blank input or anything else.
pub fn optional_dir_from_input(current_value: &str, is_dir: bool) -> (r: Option<String>)
    ensures
        match r {
            Some(s) => trim(current_value@).len() > 0 && is_dir && s@ == trim(current_value@),
            None => trim(current_value@).len() == 0 || !is_dir,
        },
{
    let v = chars_of(current_value);
    let t = trim_chars(v.as_slice());
    if t.len() == 0 || !is_dir {
        return None;
    }
    Some(string_from(t.as_slice()))
}

/// The parent of the trimmed input; nothing for blank input.
pub fn optional_parent_dir_from_input(current_value: &str) -> (r: Option<String>)
    ensures
        match r {
            Some(s) => trim(current_value@).len() > 0 && crate::winpath::parent(trim(current_value@)) == Some(s@),
            None => trim(current_value@).len() == 0 || crate::winpath::parent(trim(current_value@)) is None,
        },
{
    let v = chars_of(current_value);
    let t = trim_chars(v.as_slice());
    if t.len() == 0 {
        return None;
    }
    opt_chars_to_string(crate::winpath::parent_exec(t.as_slice()))
}

/// The first `k` texts with later repeats of a path key left out.
pub open spec fn dedupe_by_key(s: Seq<Seq<char>>, k: int) -> Seq<Seq<char>>
    decreases k,
{
    if k <= 0 {
        seq![]
    } else {
        let prev = dedupe_by_key(s, k - 1);
        if exists|j: int| 0 <= j < prev.len() && spec_path_key(#[trigger] prev[j]) == spec_path_key(s[k - 1]) {
            prev
        } else {
            prev.push(s[k - 1])
        }
    }
}

/// The folders, each path key once, in order.
pub fn dedupe_dirs(dirs: Vec<String>) -> (r: Vec<String>)
    ensures
        key_views(r@) == dedupe_by_key(key_views(dirs@), dirs@.len() as int),
{
    let ghost dv = key_views(dirs@);
    let mut out: Vec<String> = Vec::new();
    let mut keys: Vec<String> = Vec::new();
    let mut i: usize = 0;
    while i < dirs.len()
        invariant
            i <= dirs@.len(),
            dv == key_views(dirs@),
            key_views(out@) == dedupe_by_key(dv, i as int),
            keys@.len() == out@.len(),
            forall|j: int| 0 <= j < keys@.len() ==> #[trigger] keys@[j]@ == spec_path_key(out@[j]@),
        decreases dirs@.len() - i,
    {
        let ghost prev = key_views(out@);
        let key = path_key(dirs[i].as_str());
        assert(dv[i as int] == dirs@[i as int]@);
        if strings_contain(keys.as_slice(), key.as_str()) {
            proof {
                let j = choose|j: int| 0 <= j < key_views(keys@).len() && key_views(keys@)[j] == key@;
                assert(keys@[j]@ == key@);
                assert(prev[j] == out@[j]@);
            }
        } else {
            proof {
                assert forall|j: int| 0 <= j < prev.len() implies spec_path_key(#[trigger] prev[j]) != spec_path_key(dv[i as int]) by {
                    assert(prev[j] == out@[j]@);
                    assert(key_views(keys@)[j] == keys@[j]@);
                }
            }
            out.push(dirs[i].clone());
            keys.push(key);
            assert(key_views(out@) =~= prev.push(dv[i as int]));
        }
        i += 1;
    }
    out
}

/// The one-element sequence of a present value, or nothing.
pub open spec fn opt_seq(o: Option<Seq<char>>) -> Seq<Seq<char>> {
    match o {
        Some(x) => seq![x],
        None => seq![],
    }
}

/// The parent of a path that is given, or nothing.
pub open spec fn opt_parent(o: Option<Seq<char>>) -> Seq<Seq<char>> {
    match o {
        Some(p) => opt_seq(crate::winpath::parent(p)),
        None => seq![],
    }
}

/// Where recent archives are looked for, before repeats are dropped: the default
/// output folder, the typed output folder where it is an existing folder, the folder
/// of the typed archive path, and the folders of the last written and of the loaded
/// archive.
pub open spec fn recent_search_candidates(
    default_output: Option<Seq<char>>,
    backup_output_input: Seq<char>,
    backup_output_is_dir: bool,
    archive_path_input: Seq<char>,
    last_archive_path: Option<Seq<char>>,
    loaded_archive_path: Option<Seq<char>>,
) -> Seq<Seq<char>> {
    opt_seq(default_output) + (if trim(backup_output_input).len() > 0 && backup_output_is_dir {
        seq![trim(backup_output_input)]
    } else {
        seq![]
    }) + (if trim(archive_path_input).len() > 0 {
        opt_seq(crate::winpath::parent(trim(archive_path_input)))
    } else {
        seq![]
    }) + opt_parent(last_archive_path) + opt_parent(loaded_archive_path)
}

pub open spec fn opt_str(o: Option<&str>) -> Option<Seq<char>> {
    match o {
        Some(s) => Some(s@),
        None => None,
    }
}

fn push_parent(dirs: &mut Vec<String>, path: Option<&str>)
    ensures
        key_views(final(dirs)@) == key_views(old(dirs)@) + opt_parent(opt_str(path)),
{
    match path {
        Some(p) => {
            let pc = chars_of(p);
            match crate::winpath::parent_exec(pc.as_slice()) {
                Some(d) => {
                    let ghost before = key_views(dirs@);
                    dirs.push(string_from(d.as_slice()));
                    assert(key_views(dirs@) =~= before + opt_parent(opt_str(path)));
                },
                None => {
                    assert(key_views(dirs@) =~= key_views(old(dirs)@) + opt_parent(opt_str(path)));
                },
            }
        },
        None => {
            assert(key_views(dirs@) =~= key_views(old(dirs)@) + opt_parent(opt_str(path)));
        },
    }
}

fn push_option(dirs: &mut Vec<String>, value: Option<String>)
    ensures
        key_views(final(dirs)@) == key_views(old(dirs)@) + opt_seq(
            match value {
                Some(v) => Some(v@),
                None => None,
            },
        ),
{
    let ghost before = key_views(dirs@);
    match value {
        Some(v) => {
            dirs.push(v);
        },
        None => {},
    }
    assert(key_views(dirs@) =~= before + opt_seq(
        match value {
            Some(v) => Some(v@),
            None => None,
        },
    ));
}

/// The folders searched for recent archives, each path key once: the default output
/// folder (where one could be determined), the typed output folder where
/// `backup_output_is_dir` says it is an existing folder, the folder of the typed archive
/// path, and the folders of the last written and of the loaded archive.
pub fn recent_archive_search_dirs(
    default_output: Option<&str>,
    backup_output_input: &str,
    backup_output_is_dir: bool,
    archive_path_input: &str,
    last_archive_path: Option<&str>,
    loaded_archive_path: Option<&str>,
) -> (r: Vec<String>)
    ensures
        ({
            let c = recent_search_candidates(
                opt_str(default_output),
                backup_output_input@,
                backup_output_is_dir,
                archive_path_input@,
                opt_str(last_archive_path),
                opt_str(loaded_archive_path),
            );
            key_views(r@) == dedupe_by_key(c, c.len() as int)
        }),
{
    let mut dirs: Vec<String> = Vec::new();
    push_option(
        &mut dirs,
        match default_output {
            Some(d) => Some(d.to_string()),
            None => None,
        },
    );
    push_option(&mut dirs, optional_dir_from_input(backup_output_input, backup_output_is_dir));
    push_option(&mut dirs, optional_parent_dir_from_input(archive_path_input));
    push_parent(&mut dirs, last_archive_path);
    push_parent(&mut dirs, loaded_archive_path);
    proof {
        let c = recent_search_candidates(
            opt_str(default_output),
            backup_output_input@,
            backup_output_is_dir,
            archive_path_input@,
            opt_str(last_archive_path),
            opt_str(loaded_archive_path),
        );
        assert(key_views(dirs@) =~= c);
    }
    dedupe_dirs(dirs)
}

/// The order key of a path when nested paths are collapsed: fewer components first,
/// then by path key.
pub open spec fn path_sort_key(p: Seq<char>) -> crate::order::KeyView {
    (crate::winpath::component_count(p) as u64, 0u64, spec_path_key(p))
}

pub open spec fn path_sort_keys(paths: Seq<Seq<char>>) -> Seq<crate::order::KeyView> {
    paths.map_values(|p: Seq<char>| path_sort_key(p))
}

/// The paths in the given order.
pub open spec fn in_order(paths: Seq<Seq<char>>, order: Seq<usize>) -> Seq<Seq<char>> {
    order.map_values(|i: usize| paths[i as int])
}

/// The first `k` sorted paths with each path that lies at or under an earlier kept
/// one left out.
pub open spec fn collapse_sorted(s: Seq<Seq<char>>, k: int) -> Seq<Seq<char>>
    decreases k,
{
    if k <= 0 {
        seq![]
    } else {
        let prev = collapse_sorted(s, k - 1);
        if exists|j: int| 0 <= j < prev.len() && (crate::winpath::path_eq(s[k - 1], #[trigger] prev[j])
            || crate::winpath::path_starts_with(s[k - 1], prev[j])) {
            prev
        } else {
            prev.push(s[k - 1])
        }
    }
}

/// The paths sorted by (component count, path key), each path kept unless it lies
/// at or under a path already kept: parents win over what they contain.
pub fn collapse_nested_paths(paths: Vec<String>) -> (r: Vec<String>)
    ensures
        exists|order: Seq<usize>|
            #[trigger] crate::order::is_stable_order(path_sort_keys(key_views(paths@)), order) && key_views(r@)
                == collapse_sorted(in_order(key_views(paths@), order), paths@.len() as int),
{
    let mut keys: Vec<crate::order::SortKey> = Vec::new();
    let mut i: usize = 0;
    while i < paths.len()
        invariant
            i <= paths@.len(),
            crate::order::sort_key_views(keys@) == path_sort_keys(key_views(paths@).take(i as int)),
        decreases paths@.len() - i,
    {
        let p = chars_of(paths[i].as_str());
        let n = crate::winpath::component_count_exec(p.as_slice());
        let text = lowercase_chars(p.as_slice());
        let ghost before = crate::order::sort_key_views(keys@);
        keys.push(crate::order::SortKey { first: n as u64, second: 0, text });
        assert(crate::order::sort_key_views(keys@) =~= before.push(path_sort_key(paths@[i as int]@)));
        i += 1;
        assert(crate::order::sort_key_views(keys@) =~= path_sort_keys(key_views(paths@).take(i as int)));
    }
    assert(key_views(paths@).take(i as int) =~= key_views(paths@));
    let order = crate::order::stable_order(keys.as_slice());
    let ghost sorted = in_order(key_views(paths@), order@);
    let mut out: Vec<String> = Vec::new();
    let mut k: usize = 0;
    while k < order.len()
        invariant
            k <= order@.len(),
            order@.len() == paths@.len(),
            forall|m: int| 0 <= m < order@.len() ==> order@[m] < paths@.len(),
            sorted == in_order(key_views(paths@), order@),
            key_views(out@) == collapse_sorted(sorted, k as int),
        decreases order@.len() - k,
    {
        let ghost prev = key_views(out@);
        let idx = order[k];
        let p = chars_of(paths[idx].as_str());
        assert(sorted[k as int] == p@);
        let mut covered = false;
        let mut j: usize = 0;
        while j < out.len()
            invariant
                j <= out@.len(),
                prev == key_views(out@),
                covered == exists|m: int| 0 <= m < j && (crate::winpath::path_eq(p@, #[trigger] prev[m]) || crate::winpath::path_starts_with(
                    p@,
                    prev[m],
                )),
            decreases out@.len() - j,
        {
            let e = chars_of(out[j].as_str());
            assert(prev[j as int] == e@);
            if crate::winpath::path_eq_exec(p.as_slice(), e.as_slice()) || crate::winpath::path_starts_with_exec(
                p.as_slice(),
                e.as_slice(),
            ) {
                covered = true;
            }
            j += 1;
        }
        if !covered {
            out.push(paths[idx].clone());
            assert(key_views(out@) =~= prev.push(sorted[k as int]));
        }
        k += 1;
    }
    out
}

/// The positions among the first `k` sorted paths of the paths that
/// `collapse_sorted` keeps.
pub open spec fn collapse_kept(s: Seq<Seq<char>>, k: int) -> Seq<int>
    decreases k,
{
    if k <= 0 {
        seq![]
    } else {
        let prev = collapse_sorted(s, k - 1);
        if exists|j: int| 0 <= j < prev.len() && (crate::winpath::path_eq(s[k - 1], #[trigger] prev[j])
            || crate::winpath::path_starts_with(s[k - 1], prev[j])) {
            collapse_kept(s, k - 1)
        } else {
            collapse_kept(s, k - 1).push(k - 1)
        }
    }
}

proof fn lemma_collapse_shape(s: Seq<Seq<char>>, k: int)
    requires
        0 <= k <= s.len(),
    ensures
        collapse_kept(s, k).len() == collapse_sorted(s, k).len(),
        forall|a: int| 0 <= a < collapse_kept(s, k).len() ==> 0 <= #[trigger] collapse_kept(s, k)[a] < k
            && collapse_sorted(s, k)[a] == s[collapse_kept(s, k)[a]],
        forall|a: int, b: int| 0 <= a < b < collapse_kept(s, k).len() ==> #[trigger] collapse_kept(s, k)[a]
            < #[trigger] collapse_kept(s, k)[b],
        forall|a: int, b: int| 0 <= a < b < collapse_sorted(s, k).len() ==> !crate::winpath::path_starts_with(
            #[trigger] collapse_sorted(s, k)[b],
            #[trigger] collapse_sorted(s, k)[a],
        ),
    decreases k,
{
    if k > 0 {
        lemma_collapse_shape(s, k - 1);
        let prev = collapse_sorted(s, k - 1);
        if !(exists|j: int| 0 <= j < prev.len() && (crate::winpath::path_eq(s[k - 1], #[trigger] prev[j])
            || crate::winpath::path_starts_with(s[k - 1], prev[j]))) {
            let r = collapse_sorted(s, k);
            assert(r == prev.push(s[k - 1]));
            assert forall|a: int, b: int| 0 <= a < b < r.len() implies !crate::winpath::path_starts_with(
                #[trigger] r[b],
                #[trigger] r[a],
            ) by {
                if b == r.len() - 1 {
                    assert(r[a] == prev[a]);
                } else {
                    assert(r[a] == prev[a] && r[b] == prev[b]);
                }
            }
        }
    }
}

/// Collapsing nested paths leaves no kept path at or under another kept path, for
/// paths whose component counts fit in 64 bits. `order` is the order by (component
/// count, path key) that `collapse_nested_paths` sorts by.
pub proof fn law_collapsed_paths_not_nested(paths: Seq<Seq<char>>, order: Seq<usize>, a: int, b: int)
    requires
        crate::order::is_stable_order(path_sort_keys(paths), order),
        forall|x: int| 0 <= x < paths.len() ==> crate::winpath::component_count(#[trigger] paths[x]) <= u64::MAX,
        0 <= a < collapse_sorted(in_order(paths, order), paths.len() as int).len(),
        0 <= b < collapse_sorted(in_order(paths, order), paths.len() as int).len(),
        a != b,
    ensures
        !crate::winpath::path_starts_with(
            collapse_sorted(in_order(paths, order), paths.len() as int)[a],
            collapse_sorted(in_order(paths, order), paths.len() as int)[b],
        ),
{
    let s = in_order(paths, order);
    let n = paths.len() as int;
    let r = collapse_sorted(s, n);
    let kept = collapse_kept(s, n);
    lemma_collapse_shape(s, n);
    if b < a {
        assert(!crate::winpath::path_starts_with(r[a], r[b]));
    } else {
        let ma = kept[a];
        let mb = kept[b];
        assert(ma < mb);
        let oa = order[ma];
        let ob = order[mb];
        assert(oa < n && ob < n);
        assert(crate::order::ranks_before(path_sort_keys(paths), oa, ob));
        assert(path_sort_keys(paths)[oa as int] == path_sort_key(paths[oa as int]));
        assert(path_sort_keys(paths)[ob as int] == path_sort_key(paths[ob as int]));
        assert(s[ma] == paths[oa as int] && s[mb] == paths[ob as int]);
        assert(r[a] == paths[oa as int] && r[b] == paths[ob as int]);
        let ca = crate::winpath::component_count(r[a]);
        let cb = crate::winpath::component_count(r[b]);
        assert(ca <= u64::MAX && cb <= u64::MAX);
        assert(ca <= cb);
        if crate::winpath::path_starts_with(r[a], r[b]) {
            let sa = crate::winpath::components(r[a]);
            let sb = crate::winpath::components(r[b]);
            assert(sa.len() == sb.len());
            assert(sa.take(sb.len() as int) =~= sa);
            assert(crate::winpath::path_starts_with(r[b], r[a]));
            assert(false);
        }
    }
}

proof fn lemma_collapse_covers(s: Seq<Seq<char>>, k: int, m: int)
    requires
        0 <= m < k <= s.len(),
    ensures
        exists|j: int| 0 <= j < collapse_sorted(s, k).len() && (crate::winpath::path_eq(s[m], #[trigger] collapse_sorted(s, k)[j])
            || crate::winpath::path_starts_with(s[m], collapse_sorted(s, k)[j])),
    decreases k,
{
    let prev = collapse_sorted(s, k - 1);
    let r = collapse_sorted(s, k);
    if m < k - 1 {
        lemma_collapse_covers(s, k - 1, m);
        let j = choose|j: int| 0 <= j < prev.len() && (crate::winpath::path_eq(s[m], #[trigger] prev[j])
            || crate::winpath::path_starts_with(s[m], prev[j]));
        assert(r[j] == prev[j]);
    } else if !(exists|j: int| 0 <= j < prev.len() && (crate::winpath::path_eq(s[k - 1], #[trigger] prev[j])
        || crate::winpath::path_starts_with(s[k - 1], prev[j]))) {
        assert(r[prev.len() as int] == s[m]);
        assert(crate::winpath::path_eq(s[m], r[prev.len() as int]));
    } else {
        let j = choose|j: int| 0 <= j < prev.len() && (crate::winpath::path_eq(s[k - 1], #[trigger] prev[j])
            || crate::winpath::path_starts_with(s[k - 1], prev[j]));
        assert(r[j] == prev[j]);
    }
}

/// Collapsing nested paths loses no path: every given path equals, or lies under, a
/// kept path. `order` is the order by (component count, path key) that
/// `collapse_nested_paths` sorts by.
pub proof fn law_collapse_covers_every_path(paths: Seq<Seq<char>>, order: Seq<usize>, x: int)
    requires
        crate::order::is_stable_order(path_sort_keys(paths), order),
        0 <= x < paths.len(),
    ensures
        exists|j: int| 0 <= j < collapse_sorted(in_order(paths, order), paths.len() as int).len() && (crate::winpath::path_eq(
            paths[x],
            #[trigger] collapse_sorted(in_order(paths, order), paths.len() as int)[j],
        ) || crate::winpath::path_starts_with(paths[x], collapse_sorted(in_order(paths, order), paths.len() as int)[j])),
{
    let s = in_order(paths, order);
    crate::order::lemma_permutation_covers(order, path_sort_keys(paths).len(), x);
    let m = choose|m: int| 0 <= m < order.len() && order[m] == x;
    assert(s[m] == paths[x]);
    lemma_collapse_covers(s, paths.len() as int, m);
}

/// A scan root as typed in the scan-scope list.
#[derive(Debug, Clone)]
pub struct ScanRootEntry {
    pub path: String,
}

/// The paths of the entries.
pub open spec fn entry_paths(entries: Seq<ScanRootEntry>) -> Seq<Seq<char>> {
    entries.map_values(|e: ScanRootEntry| e.path@)
}

/// The scan-root list of a fresh setup: one entry per existing drive from `C:\` to
/// `Z:\`, where `drive_exists[i]` tells whether the `i`-th drive from `C` exists.
pub fn default_scan_root_entries(drive_exists: &[bool]) -> (r: Vec<ScanRootEntry>)
    ensures
        entry_paths(r@) == crate::plan::existing_drive_roots(drive_exists@, 24),
{
    let roots = crate::plan::default_scan_roots(drive_exists);
    let mut out: Vec<ScanRootEntry> = Vec::new();
    let mut i: usize = 0;
    while i < roots.len()
        invariant
            i <= roots.len(),
            entry_paths(out@) == key_views(roots@).take(i as int),
        decreases roots.len() - i,
    {
        let ghost before = out@;
        out.push(ScanRootEntry { path: roots[i].clone() });
        proof {
            assert(key_views(roots@)[i as int] == roots@[i as int]@);
            assert(entry_paths(out@) =~= entry_paths(before).push(roots@[i as int]@));
            assert(key_views(roots@).take(i + 1) =~= key_views(roots@).take(i as int).push(roots@[i as int]@));
        }
        i += 1;
    }
    assert(key_views(roots@).take(roots.len() as int) =~= key_views(roots@));
    out
}

/// The non-blank entries among the first `k` that exist, trimmed: `exists[i]` tells
/// whether the trimmed path of entry `i` exists.
pub open spec fn existing_entries(entries: Seq<ScanRootEntry>, exists: Seq<bool>, k: int) -> Seq<Seq<char>>
    decreases k,
{
    if k <= 0 {
        seq![]
    } else {
        existing_entries(entries, exists, k - 1) + if trim(entries[k - 1].path@).len() > 0 && exists[k - 1] {
            seq![trim(entries[k - 1].path@)]
        } else {
            seq![]
        }
    }
}

/// The configured scan roots: trimmed, non-blank, existing, each path key once, with
/// nested roots collapsed into their parents.
pub fn configured_path_entries(entries: &[ScanRootEntry], exists: &[bool]) -> (r: Vec<String>)
    requires
        exists.len() == entries.len(),
    ensures
        ({
            let d = dedupe_by_key(existing_entries(entries@, exists@, entries@.len() as int), existing_entries(entries@, exists@, entries@.len() as int).len() as int);
            exists|order: Seq<usize>|
                #[trigger] crate::order::is_stable_order(path_sort_keys(d), order) && key_views(r@)
                    == collapse_sorted(in_order(d, order), d.len() as int)
        }),
{
    let mut found: Vec<String> = Vec::new();
    let mut i: usize = 0;
    while i < entries.len()
        invariant
            i <= entries.len() == exists.len(),
            key_views(found@) == existing_entries(entries@, exists@, i as int),
        decreases entries.len() - i,
    {
        let ghost before = key_views(found@);
        let v = chars_of(entries[i].path.as_str());
        let t = trim_chars(v.as_slice());
        if t.len() > 0 && exists[i] {
            found.push(string_from(t.as_slice()));
            assert(key_views(found@) =~= before.push(trim(entries@[i as int].path@)));
        } else {
            assert(key_views(found@) =~= existing_entries(entries@, exists@, i + 1));
        }
        i += 1;
    }
    let ghost e = key_views(found@);
    let roots = dedupe_dirs(found);
    let r = collapse_nested_paths(roots);
    r
}

/// The non-blank entries as saved scan roots, trimmed and enabled.
pub open spec fn saved_entries(entries: Seq<ScanRootEntry>, k: int) -> Seq<Seq<char>>
    decreases k,
{
    if k <= 0 {
        seq![]
    } else {
        saved_entries(entries, k - 1) + if trim(entries[k - 1].path@).len() > 0 {
            seq![trim(entries[k - 1].path@)]
        } else {
            seq![]
        }
    }
}

pub fn saved_path_entries(entries: &[ScanRootEntry]) -> (r: Vec<crate::config::SavedScanRoot>)
    ensures
        r@.map_values(|s: crate::config::SavedScanRoot| s.path@) == saved_entries(entries@, entries@.len() as int),
        forall|k: int| 0 <= k < r@.len() ==> (#[trigger] r@[k]).enabled,
{
    let mut out: Vec<crate::config::SavedScanRoot> = Vec::new();
    let mut i: usize = 0;
    while i < entries.len()
        invariant
            i <= entries.len(),
            out@.map_values(|s: crate::config::SavedScanRoot| s.path@) == saved_entries(entries@, i as int),
            forall|k: int| 0 <= k < out@.len() ==> (#[trigger] out@[k]).enabled,
        decreases entries.len() - i,
    {
        let ghost before = out@;
        let v = chars_of(entries[i].path.as_str());
        let t = trim_chars(v.as_slice());
        if t.len() > 0 {
            out.push(crate::config::SavedScanRoot { path: string_from(t.as_slice()), enabled: true });
            assert(out@.map_values(|s: crate::config::SavedScanRoot| s.path@) =~= before.map_values(
                |s: crate::config::SavedScanRoot| s.path@,
            ).push(trim(entries@[i as int].path@)));
        } else {
            assert(out@.map_values(|s: crate::config::SavedScanRoot| s.path@) =~= saved_entries(entries@, i + 1));
        }
        i += 1;
    }
    out
}

/// The backup output folder for the typed input: the trimmed input, or the default
/// output folder where it is blank.
pub fn resolve_backup_output_dir(input: &str, profile: Option<&str>, current_dir: &str) -> (r: String)
    ensures
        r@ == if trim(input@).len() > 0 {
            trim(input@)
        } else {
            crate::backup::spec_default_output_dir(crate::config::opt_view(profile), current_dir@)
        },
{
    let v = chars_of(input);
    let t = trim_chars(v.as_slice());
    if t.len() > 0 {
        string_from(t.as_slice())
    } else {
        crate::backup::default_output_dir(profile, current_dir)
    }
}

} // verus!
