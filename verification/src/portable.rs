//! Portable applications: what a look into a folder finds, when a folder or a single
//! executable passes as a portable application, how sure the scan is, and why.
use vstd::prelude::*;
use crate::models::{PathStats, PortableAppCandidate, PortableConfidence};
use crate::names::{
    is_data_file_extension, is_data_file_extension_exec, is_development_marker_directory,
    is_development_marker_directory_exec, is_development_marker_file, is_development_marker_file_exec,
    is_portable_support_directory, is_portable_support_directory_exec, is_support_file_extension,
    is_support_file_extension_exec,
};
use crate::plan::{
    spec_directory_name_supports_candidate, spec_infer_portable_display_name, spec_is_installed_location,
    spec_is_probable_auxiliary_executable, spec_is_probable_installer_executable, spec_is_system_install_path,
    spec_is_weak_portable_candidate_name, spec_looks_like_curated_portable_location, spec_score_executable_name,
    trim_lower,
};
use crate::text::{chars_of, decimal, decimal_chars, extend_chars, extend_str, key_views, lower, lower_chars, string_from, strings_contain};
use crate::userdata::lower_ext;
use crate::walk::{WalkAction, WalkEntry, skip_action};
use crate::winpath::{file_name, file_stem, name_or_empty, parent, path_eq};

verus! {

/// What a look two levels into a folder found.
#[derive(Debug, Clone)]
pub struct PortableDirectoryEvidence {
    pub eligible_executables: Vec<String>,
    pub support_file_hits: usize,
    pub data_file_hits: usize,
    pub app_support_dir_hits: usize,
    pub development_marker_hits: usize,
    pub installer_executable_hits: usize,
    pub auxiliary_executable_hits: usize,
    pub weak_eligible_executable_hits: usize,
    pub curated_location: bool,
}

/// Which counts one walk entry raises, and whether it is an eligible executable.
pub struct EntryEffect {
    pub support: bool,
    pub data: bool,
    pub app_support_dir: bool,
    pub development_marker: bool,
    pub installer: bool,
    pub auxiliary: bool,
    pub weak: bool,
    pub eligible: bool,
}

pub open spec fn no_effect() -> EntryEffect {
    EntryEffect {
        support: false,
        data: false,
        app_support_dir: false,
        development_marker: false,
        installer: false,
        auxiliary: false,
        weak: false,
        eligible: false,
    }
}

pub open spec fn spec_is_portable_app_support_directory_name(n: Seq<char>) -> bool {
    is_portable_support_directory(trim_lower(n))
}

pub open spec fn spec_is_development_marker_directory_name(n: Seq<char>) -> bool {
    is_development_marker_directory(trim_lower(n))
}

pub open spec fn spec_is_development_marker_file_name(n: Seq<char>) -> bool {
    is_development_marker_file(trim_lower(n))
}

/// What an entry of the look into a folder counts: folders one level down that are
/// support or development folders; files one level down that mark a development
/// project; executables (installers, helpers, or eligible ones, weakly named or not);
/// support and data files by extension, except development marker files.
pub open spec fn entry_effect(entry: WalkEntry) -> EntryEffect {
    let name = name_or_empty(entry.path@);
    if entry.is_dir {
        if entry.depth == 1 && spec_is_portable_app_support_directory_name(name) {
            EntryEffect { app_support_dir: true, ..no_effect() }
        } else if entry.depth == 1 && spec_is_development_marker_directory_name(name) {
            EntryEffect { development_marker: true, ..no_effect() }
        } else {
            no_effect()
        }
    } else if !entry.is_file {
        no_effect()
    } else {
        let dev_file = entry.depth == 1 && spec_is_development_marker_file_name(name);
        let ext = lower_ext(entry.path@);
        let is_exe = ext == Some("exe"@);
        let installer = is_exe && spec_is_probable_installer_executable(entry.path@);
        let auxiliary = is_exe && !installer && spec_is_probable_auxiliary_executable(entry.path@);
        let eligible = is_exe && !installer && !auxiliary;
        EntryEffect {
            support: !dev_file && (ext matches Some(e) && is_support_file_extension(e)),
            data: !dev_file && (ext matches Some(e) && is_data_file_extension(e)),
            app_support_dir: false,
            development_marker: dev_file,
            installer,
            auxiliary,
            weak: eligible && (file_stem(entry.path@) matches Some(s) && spec_is_weak_portable_candidate_name(s)),
            eligible,
        }
    }
}

pub open spec fn add_if(n: usize, b: bool) -> int {
    if b {
        n + 1
    } else {
        n as int
    }
}

/// Whether no count of the evidence is at its largest value.
pub open spec fn portable_evidence_has_room(e: PortableDirectoryEvidence) -> bool {
    &&& e.support_file_hits < usize::MAX
    &&& e.data_file_hits < usize::MAX
    &&& e.app_support_dir_hits < usize::MAX
    &&& e.development_marker_hits < usize::MAX
    &&& e.installer_executable_hits < usize::MAX
    &&& e.auxiliary_executable_hits < usize::MAX
    &&& e.weak_eligible_executable_hits < usize::MAX
}

fn bump(n: usize, b: bool) -> (r: usize)
    requires
        n < usize::MAX,
    ensures
        r == add_if(n, b),
{
    if b {
        n + 1
    } else {
        n
    }
}

impl PortableDirectoryEvidence {
    /// The evidence before a folder is looked into: nothing counted, and whether it
    /// lies in a usual home of portable applications.
    pub fn new_for_directory(path: &str) -> (r: Self)
        ensures
            r.eligible_executables@.len() == 0,
            r.support_file_hits == 0 && r.data_file_hits == 0 && r.app_support_dir_hits == 0,
            r.development_marker_hits == 0 && r.installer_executable_hits == 0,
            r.auxiliary_executable_hits == 0 && r.weak_eligible_executable_hits == 0,
            r.curated_location == spec_looks_like_curated_portable_location(path@),
    {
        PortableDirectoryEvidence {
            eligible_executables: Vec::new(),
            support_file_hits: 0,
            data_file_hits: 0,
            app_support_dir_hits: 0,
            development_marker_hits: 0,
            installer_executable_hits: 0,
            auxiliary_executable_hits: 0,
            weak_eligible_executable_hits: 0,
            curated_location: crate::plan::looks_like_curated_portable_location(path),
        }
    }

    /// Whether another entry can be recorded without a count overflowing.
    pub fn has_room(&self) -> (r: bool)
        ensures
            r == portable_evidence_has_room(*self),
    {
        self.support_file_hits < usize::MAX && self.data_file_hits < usize::MAX && self.app_support_dir_hits < usize::MAX
            && self.development_marker_hits < usize::MAX && self.installer_executable_hits < usize::MAX
            && self.auxiliary_executable_hits < usize::MAX && self.weak_eligible_executable_hits < usize::MAX
    }

    /// Records one entry of the look (two levels deep) into a folder.
    pub fn record_entry(&mut self, entry: &WalkEntry)
        requires
            portable_evidence_has_room(*old(self)),
        ensures
            ({
                let f = entry_effect(*entry);
                &&& key_views(final(self).eligible_executables@) == key_views(old(self).eligible_executables@) + if f.eligible {
                    seq![entry.path@]
                } else {
                    Seq::<Seq<char>>::empty()
                }
                &&& final(self).support_file_hits == add_if(old(self).support_file_hits, f.support)
                &&& final(self).data_file_hits == add_if(old(self).data_file_hits, f.data)
                &&& final(self).app_support_dir_hits == add_if(old(self).app_support_dir_hits, f.app_support_dir)
                &&& final(self).development_marker_hits == add_if(old(self).development_marker_hits, f.development_marker)
                &&& final(self).installer_executable_hits == add_if(old(self).installer_executable_hits, f.installer)
                &&& final(self).auxiliary_executable_hits == add_if(old(self).auxiliary_executable_hits, f.auxiliary)
                &&& final(self).weak_eligible_executable_hits == add_if(old(self).weak_eligible_executable_hits, f.weak)
                &&& final(self).curated_location == old(self).curated_location
            }),
    {
        let p = chars_of(entry.path.as_str());
        let name = crate::winpath::name_or_empty_exec(p.as_slice());
        let tl = crate::text::trim_chars(name.as_slice());
        let tl = lower_chars(tl.as_slice());
        let ghost before = key_views(self.eligible_executables@);
        if entry.is_dir {
            if entry.depth == 1 && is_portable_support_directory_exec(tl.as_slice()) {
                self.app_support_dir_hits = self.app_support_dir_hits + 1;
            } else if entry.depth == 1 && is_development_marker_directory_exec(tl.as_slice()) {
                self.development_marker_hits = self.development_marker_hits + 1;
            }
            assert(key_views(self.eligible_executables@) =~= before + Seq::<Seq<char>>::empty());
            return;
        }
        if !entry.is_file {
            assert(key_views(self.eligible_executables@) =~= before + Seq::<Seq<char>>::empty());
            return;
        }
        let dev_file = entry.depth == 1 && is_development_marker_file_exec(tl.as_slice());
        let ext = match crate::plan::extension_exec(p.as_slice()) {
            Some(e) => Some(lower_chars(e.as_slice())),
            None => None,
        };
        let (is_exe, support_ext, data_ext) = match &ext {
            Some(e) => (
                crate::text::chars_eq_str(e.as_slice(), "exe"),
                is_support_file_extension_exec(e.as_slice()),
                is_data_file_extension_exec(e.as_slice()),
            ),
            None => (false, false, false),
        };
        let installer = is_exe && crate::plan::is_probable_installer_executable(entry.path.as_str());
        let auxiliary = is_exe && !installer && crate::plan::is_probable_auxiliary_executable(entry.path.as_str());
        let eligible = is_exe && !installer && !auxiliary;
        let weak = eligible && match crate::plan::file_stem_exec(p.as_slice()) {
            Some(s) => crate::plan::is_weak_portable_candidate_name(s.as_slice()),
            None => false,
        };
        self.development_marker_hits = bump(self.development_marker_hits, dev_file);
        self.installer_executable_hits = bump(self.installer_executable_hits, installer);
        self.auxiliary_executable_hits = bump(self.auxiliary_executable_hits, auxiliary);
        self.weak_eligible_executable_hits = bump(self.weak_eligible_executable_hits, weak);
        self.support_file_hits = bump(self.support_file_hits, !dev_file && support_ext);
        self.data_file_hits = bump(self.data_file_hits, !dev_file && data_ext);
        if eligible {
            self.eligible_executables.push(entry.path.clone());
            assert(key_views(self.eligible_executables@) =~= before + seq![entry.path@]);
        } else {
            assert(key_views(self.eligible_executables@) =~= before + Seq::<Seq<char>>::empty());
        }
    }
}

pub open spec fn min_int(a: int, b: int) -> int {
    if a < b {
        a
    } else {
        b
    }
}

/// The folder holds support files, data files or support folders.
pub open spec fn has_structure(e: PortableDirectoryEvidence) -> bool {
    e.support_file_hits + e.data_file_hits + e.app_support_dir_hits > 0
}

/// What speaks for a folder being a portable application.
pub open spec fn positive_score(e: PortableDirectoryEvidence, name_matches: bool, main_in_root: bool) -> int {
    let n = e.eligible_executables@.len() as int;
    (if e.curated_location { 4int } else { 0 }) + (if name_matches { 4int } else { 0 }) + (if main_in_root { 1int } else { 0 })
        + (if has_structure(e) { 1int } else { 0 }) + min_int(e.support_file_hits as int, 4) + min_int(e.data_file_hits as int, 2)
        + min_int(e.app_support_dir_hits as int, 2) * 2 + (if n == 1 { 1int } else { 0 }) + (if e.weak_eligible_executable_hits
        < n {
        1int
    } else {
        0
    })
}

/// What speaks against it.
pub open spec fn risk_score(e: PortableDirectoryEvidence) -> int {
    let n = e.eligible_executables@.len() as int;
    (if !has_structure(e) { 3int } else { 0 }) + (if n >= 4 { 2int } else { 0 }) + (if n >= 7 { 3int } else { 0 }) + min_int(
        e.weak_eligible_executable_hits as int,
        3,
    ) + (if e.installer_executable_hits > 0 { 1int } else { 0 }) + (if e.auxiliary_executable_hits > n { 2int } else { 0 }) + (
    if e.development_marker_hits > 0 && !e.curated_location {
        3int
    } else {
        0
    })
}

/// Whether what was found in a folder is enough to call it a portable application:
/// some eligible executable; a usual location, some structure or a matching folder
/// name; not a bare development project; not many executables without structure;
/// and what speaks for it (at least 4) outweighs what speaks against it.
pub open spec fn spec_portable_directory_passes_evidence_threshold(
    path: Seq<char>,
    display_name: Seq<char>,
    main_executable: Seq<char>,
    e: PortableDirectoryEvidence,
) -> bool {
    let n = e.eligible_executables@.len() as int;
    let matches = spec_directory_name_supports_candidate(path, display_name);
    let main_in_root = parent(main_executable) matches Some(p) && path_eq(p, path);
    if n == 0 {
        false
    } else if !e.curated_location && !has_structure(e) && !matches {
        false
    } else if !e.curated_location && e.development_marker_hits >= 2 && e.support_file_hits == 0 && e.data_file_hits == 0
        && e.app_support_dir_hits == 0 {
        false
    } else if !e.curated_location && n >= 5 && !has_structure(e) {
        false
    } else {
        positive_score(e, matches, main_in_root) >= 4 && positive_score(e, matches, main_in_root) > risk_score(e)
    }
}

fn cap(n: usize, m: usize) -> (r: usize)
    ensures
        r == min_int(n as int, m as int),
{
    if n < m {
        n
    } else {
        m
    }
}

fn structure_exec(e: &PortableDirectoryEvidence) -> (r: bool)
    ensures
        r == has_structure(*e),
{
    e.support_file_hits > 0 || e.data_file_hits > 0 || e.app_support_dir_hits > 0
}

fn positive_exec(e: &PortableDirectoryEvidence, name_matches: bool, main_in_root: bool) -> (r: usize)
    ensures
        r == positive_score(*e, name_matches, main_in_root),
{
    let n = e.eligible_executables.len();
    let mut positive: usize = 0;
    if e.curated_location {
        positive += 4;
    }
    if name_matches {
        positive += 4;
    }
    if main_in_root {
        positive += 1;
    }
    if structure_exec(e) {
        positive += 1;
    }
    positive += cap(e.support_file_hits, 4);
    positive += cap(e.data_file_hits, 2);
    positive += cap(e.app_support_dir_hits, 2) * 2;
    if n == 1 {
        positive += 1;
    }
    if e.weak_eligible_executable_hits < n {
        positive += 1;
    }
    positive
}

fn risk_exec(e: &PortableDirectoryEvidence) -> (r: usize)
    ensures
        r == risk_score(*e),
{
    let n = e.eligible_executables.len();
    let mut risk: usize = 0;
    if !structure_exec(e) {
        risk += 3;
    }
    if n >= 4 {
        risk += 2;
    }
    if n >= 7 {
        risk += 3;
    }
    risk += cap(e.weak_eligible_executable_hits, 3);
    if e.installer_executable_hits > 0 {
        risk += 1;
    }
    if e.auxiliary_executable_hits > n {
        risk += 2;
    }
    if e.development_marker_hits > 0 && !e.curated_location {
        risk += 3;
    }
    risk
}

pub fn portable_directory_passes_evidence_threshold(path: &str, display_name: &str, main_executable: &str, evidence: &PortableDirectoryEvidence) -> (r: bool)
    ensures
        r == spec_portable_directory_passes_evidence_threshold(path@, display_name@, main_executable@, *evidence),
{
    let e = evidence;
    let n = e.eligible_executables.len();
    if n == 0 {
        return false;
    }
    let pc = chars_of(path);
    let dc = chars_of(display_name);
    let matches = crate::plan::directory_name_supports_candidate(pc.as_slice(), dc.as_slice());
    let structural = structure_exec(e);
    if !e.curated_location && !structural && !matches {
        return false;
    }
    if !e.curated_location && e.development_marker_hits >= 2 && e.support_file_hits == 0 && e.data_file_hits == 0
        && e.app_support_dir_hits == 0 {
        return false;
    }
    if !e.curated_location && n >= 5 && !structural {
        return false;
    }
    let mc = chars_of(main_executable);
    let main_in_root = match crate::winpath::parent_exec(mc.as_slice()) {
        Some(p) => crate::winpath::path_eq_exec(p.as_slice(), pc.as_slice()),
        None => false,
    };
    let positive = positive_exec(e, matches, main_in_root);
    let risk = risk_exec(e);
    positive >= 4 && positive > risk
}

/// How sure the scan is about a folder candidate.
pub open spec fn spec_portable_directory_confidence(display_name: Seq<char>, root_path: Seq<char>, e: PortableDirectoryEvidence) -> PortableConfidence {
    let matches = spec_directory_name_supports_candidate(root_path, display_name);
    if e.curated_location || e.support_file_hits >= 3 || e.app_support_dir_hits >= 2 || (matches && e.support_file_hits
        + e.data_file_hits >= 1) {
        PortableConfidence::High
    } else if matches || e.support_file_hits + e.data_file_hits >= 1 || e.app_support_dir_hits >= 1 {
        PortableConfidence::Medium
    } else {
        PortableConfidence::Low
    }
}

pub fn portable_directory_confidence(display_name: &str, root_path: &str, evidence: &PortableDirectoryEvidence) -> (r: PortableConfidence)
    ensures
        r == spec_portable_directory_confidence(display_name@, root_path@, *evidence),
{
    let e = evidence;
    let rc = chars_of(root_path);
    let dc = chars_of(display_name);
    let matches = crate::plan::directory_name_supports_candidate(rc.as_slice(), dc.as_slice());
    let some_files = e.support_file_hits >= 1 || e.data_file_hits >= 1;
    if e.curated_location || e.support_file_hits >= 3 || e.app_support_dir_hits >= 2 || (matches && some_files) {
        PortableConfidence::High
    } else if matches || some_files || e.app_support_dir_hits >= 1 {
        PortableConfidence::Medium
    } else {
        PortableConfidence::Low
    }
}

/// `<n><text>`: a count followed by text.
pub open spec fn counted(n: nat, text: Seq<char>) -> Seq<char> {
    decimal(n) + text
}

fn counted_exec(n: usize, text: &str) -> (r: String)
    ensures
        r@ == counted(n as nat, text@),
{
    let mut v = decimal_chars(n as u64);
    extend_str(&mut v, text);
    string_from(v.as_slice())
}

/// Why a folder passed: how many executables, and the support files, data files and
/// support folders found, where there are any.
pub open spec fn spec_portable_directory_reasons(e: PortableDirectoryEvidence) -> Seq<Seq<char>> {
    seq![counted(e.eligible_executables@.len(), " executable(s) found"@)] + (if e.support_file_hits > 0 {
        seq![counted(e.support_file_hits as nat, " support/config file(s) found"@)]
    } else {
        seq![]
    }) + (if e.data_file_hits > 0 {
        seq![counted(e.data_file_hits as nat, " portable data file(s) found"@)]
    } else {
        seq![]
    }) + (if e.app_support_dir_hits > 0 {
        seq![counted(e.app_support_dir_hits as nat, " app support folder(s) found"@)]
    } else {
        seq![]
    })
}

pub fn portable_directory_reasons(evidence: &PortableDirectoryEvidence) -> (r: Vec<String>)
    ensures
        key_views(r@) == spec_portable_directory_reasons(*evidence),
{
    let e = evidence;
    let mut v: Vec<String> = Vec::new();
    v.push(counted_exec(e.eligible_executables.len(), " executable(s) found"));
    if e.support_file_hits > 0 {
        v.push(counted_exec(e.support_file_hits, " support/config file(s) found"));
    }
    if e.data_file_hits > 0 {
        v.push(counted_exec(e.data_file_hits, " portable data file(s) found"));
    }
    if e.app_support_dir_hits > 0 {
        v.push(counted_exec(e.app_support_dir_hits, " app support folder(s) found"));
    }
    assert(key_views(v@) =~= spec_portable_directory_reasons(*evidence));
    v
}

} // verus!

verus! {

/// The index of the last best score among the first `k` (`k >= 1`): ties go to the
/// later item, as `Iterator::max_by_key` chooses.
pub open spec fn last_best(scores: Seq<int>, k: int) -> int
    decreases k,
{
    if k <= 1 {
        0
    } else {
        let b = last_best(scores, k - 1);
        if scores[k - 1] >= scores[b] {
            k - 1
        } else {
            b
        }
    }
}

proof fn lemma_last_best_bound(scores: Seq<int>, k: int)
    requires
        1 <= k,
    ensures
        0 <= last_best(scores, k) < k,
    decreases k,
{
    if k > 1 {
        lemma_last_best_bound(scores, k - 1);
    }
}

/// The scores of the eligible executables of a folder.
pub open spec fn executable_scores(path: Seq<char>, exes: Seq<Seq<char>>) -> Seq<int> {
    exes.map_values(|x: Seq<char>| crate::plan::capped(spec_score_executable_name(path, x)))
}

/// The main executable of a folder: the best-scoring eligible executable, the last
/// one where several score best.
pub open spec fn spec_main_executable(path: Seq<char>, exes: Seq<Seq<char>>) -> Seq<char> {
    exes[last_best(executable_scores(path, exes), exes.len() as int)]
}

pub fn main_executable(path: &str, evidence: &PortableDirectoryEvidence) -> (r: String)
    requires
        evidence.eligible_executables@.len() > 0,
    ensures
        r@ == spec_main_executable(path@, key_views(evidence.eligible_executables@)),
{
    let exes = &evidence.eligible_executables;
    let ghost ev = key_views(exes@);
    let ghost scores = executable_scores(path@, ev);
    let mut best: usize = 0;
    let mut best_score = crate::plan::score_executable_name(path, exes[0].as_str());
    let mut i: usize = 1;
    assert(ev[0] == exes@[0]@);
    assert(scores[0] == crate::plan::capped(spec_score_executable_name(path@, ev[0])));
    while i < exes.len()
        invariant
            1 <= i <= exes@.len(),
            ev == key_views(exes@),
            scores == executable_scores(path@, ev),
            best as int == last_best(scores, i as int),
            best < i,
            best_score as int == scores[best as int],
        decreases exes@.len() - i,
    {
        assert(ev[i as int] == exes@[i as int]@);
        assert(scores[i as int] == crate::plan::capped(spec_score_executable_name(path@, ev[i as int])));
        let s = crate::plan::score_executable_name(path, exes[i].as_str());
        if s >= best_score {
            best = i;
            best_score = s;
        }
        i += 1;
    }
    assert(ev[best as int] == exes@[best as int]@);
    exes[best].clone()
}

/// A folder or executable that passed as a portable application, before it is measured.
#[derive(Debug, Clone)]
pub struct PortableAssessment {
    pub display_name: String,
    pub main_executable: String,
    pub confidence: PortableConfidence,
    pub reasons: Vec<String>,
}

pub open spec fn assessment_view(a: PortableAssessment) -> (Seq<char>, Seq<char>, PortableConfidence, Seq<Seq<char>>) {
    (a.display_name@, a.main_executable@, a.confidence, key_views(a.reasons@))
}

impl PortableAssessment {
    /// The candidate for `root_path`, with its measured stats.
    pub fn into_candidate(self, root_path: &str, stats: PathStats) -> (r: PortableAppCandidate)
        ensures
            r.display_name@ == self.display_name@,
            r.root_path@ == root_path@,
            r.main_executable@ == self.main_executable@,
            r.confidence == self.confidence,
            r.stats == stats,
            key_views(r.reasons@) == key_views(self.reasons@),
    {
        PortableAppCandidate {
            display_name: self.display_name,
            root_path: root_path.to_string(),
            main_executable: self.main_executable,
            confidence: self.confidence,
            stats,
            reasons: self.reasons,
        }
    }
}

/// Whether a folder passes as a portable application, and as what: not a system or
/// installed location; some eligible executable, the best of which names it; a name
/// that is not weak; and enough evidence.
pub open spec fn spec_assess_portable_directory(
    path: Seq<char>,
    installed_locations: Seq<Seq<char>>,
    root_is_dir: bool,
    e: PortableDirectoryEvidence,
) -> Option<(Seq<char>, Seq<char>, PortableConfidence, Seq<Seq<char>>)> {
    if spec_is_system_install_path(path) || spec_is_installed_location(path, installed_locations) {
        None
    } else if e.eligible_executables@.len() == 0 {
        None
    } else {
        let main = spec_main_executable(path, key_views(e.eligible_executables@));
        match spec_infer_portable_display_name(path, main, root_is_dir) {
            None => None,
            Some(d) => if spec_is_weak_portable_candidate_name(d) {
                None
            } else if !spec_portable_directory_passes_evidence_threshold(path, d, main, e) {
                None
            } else {
                Some((d, main, spec_portable_directory_confidence(d, path, e), spec_portable_directory_reasons(e)))
            },
        }
    }
}

/// Evaluates a folder as a portable application from what a look into it found;
/// `root_is_dir` tells whether the folder exists as a folder.
pub fn assess_portable_directory(path: &str, installed_locations: &[String], root_is_dir: bool, evidence: &PortableDirectoryEvidence) -> (r: Option<PortableAssessment>)
    ensures
        match r {
            Some(a) => spec_assess_portable_directory(path@, key_views(installed_locations@), root_is_dir, *evidence) == Some(
                assessment_view(a),
            ),
            None => spec_assess_portable_directory(path@, key_views(installed_locations@), root_is_dir, *evidence) is None,
        },
{
    if crate::plan::is_system_install_path(path) || crate::plan::is_installed_location(path, installed_locations) {
        return None;
    }
    if evidence.eligible_executables.len() == 0 {
        return None;
    }
    let main = main_executable(path, evidence);
    let display_name = match crate::plan::infer_portable_display_name(path, main.as_str(), root_is_dir) {
        Some(d) => d,
        None => return None,
    };
    let dc = chars_of(display_name.as_str());
    if crate::plan::is_weak_portable_candidate_name(dc.as_slice()) {
        return None;
    }
    if !portable_directory_passes_evidence_threshold(path, display_name.as_str(), main.as_str(), evidence) {
        return None;
    }
    let confidence = portable_directory_confidence(display_name.as_str(), path, evidence);
    let reasons = portable_directory_reasons(evidence);
    Some(PortableAssessment { display_name, main_executable: main, confidence, reasons })
}

/// An entry of a folder listing: its name and whether it is a file.
#[derive(Debug, Clone)]
pub struct DirEntryName {
    pub name: String,
    pub is_file: bool,
}

/// Whether a sibling counts as a support or data file of an executable named `current`.
pub open spec fn counts_as_sibling_support(s: DirEntryName, current: Seq<char>) -> bool {
    &&& s.is_file
    &&& lower(s.name@) != lower(current)
    &&& !spec_is_development_marker_file_name(s.name@)
    &&& lower_ext(s.name@) matches Some(e) && (is_support_file_extension(e) || is_data_file_extension(e))
}

pub open spec fn count_support(siblings: Seq<DirEntryName>, current: Seq<char>, k: int) -> nat
    decreases k,
{
    if k <= 0 {
        0
    } else {
        count_support(siblings, current, k - 1) + if counts_as_sibling_support(siblings[k - 1], current) {
            1nat
        } else {
            0nat
        }
    }
}

/// How many files beside an executable are support or data files: `siblings` lists
/// the entries of the executable's folder. Nothing where the path has no parent or
/// no name.
pub open spec fn spec_count_sibling_portable_support_files(path: Seq<char>, siblings: Seq<DirEntryName>) -> nat {
    if parent(path) is None {
        0
    } else {
        match file_name(path) {
            Some(n) => count_support(siblings, n, siblings.len() as int),
            None => 0,
        }
    }
}

pub fn count_sibling_portable_support_files(path: &str, siblings: &[DirEntryName]) -> (r: usize)
    ensures
        r == spec_count_sibling_portable_support_files(path@, siblings@),
{
    let p = chars_of(path);
    if crate::winpath::parent_exec(p.as_slice()).is_none() {
        return 0;
    }
    let current = match crate::winpath::file_name_exec(p.as_slice()) {
        Some(n) => n,
        None => return 0,
    };
    let current_lower = lower_chars(current.as_slice());
    let mut count: usize = 0;
    let mut i: usize = 0;
    while i < siblings.len()
        invariant
            i <= siblings@.len(),
            current_lower@ == lower(current@),
            count == count_support(siblings@, current@, i as int),
            count <= i,
        decreases siblings@.len() - i,
    {
        let s = &siblings[i];
        let n = chars_of(s.name.as_str());
        let nl = lower_chars(n.as_slice());
        let t = crate::text::trim_chars(n.as_slice());
        let tl = lower_chars(t.as_slice());
        let ext_ok = match crate::plan::extension_exec(n.as_slice()) {
            Some(e) => {
                let el = lower_chars(e.as_slice());
                is_support_file_extension_exec(el.as_slice()) || is_data_file_extension_exec(el.as_slice())
            },
            None => false,
        };
        if s.is_file && !crate::text::chars_eq(nl.as_slice(), current_lower.as_slice()) && !is_development_marker_file_exec(
            tl.as_slice(),
        ) && ext_ok {
            count += 1;
        }
        i += 1;
    }
    count
}

/// Whether a single executable passes as a portable application, and as what.
/// `parent_evidence` is what a look into its folder found; it counts only where that
/// folder has a name.
pub open spec fn spec_assess_portable_executable(
    path: Seq<char>,
    installed_locations: Seq<Seq<char>>,
    siblings: Seq<DirEntryName>,
    parent_evidence: Option<PortableDirectoryEvidence>,
) -> Option<(Seq<char>, Seq<char>, PortableConfidence, Seq<Seq<char>>)> {
    if lower_ext(path) != Some("exe"@) {
        None
    } else if spec_is_system_install_path(path) || spec_is_installed_location(path, installed_locations)
        || spec_is_probable_installer_executable(path) || spec_is_probable_auxiliary_executable(path) {
        None
    } else {
        match spec_infer_portable_display_name(path, path, false) {
            None => None,
            Some(d) => {
                let curated = spec_looks_like_curated_portable_location(path);
                let sib = spec_count_sibling_portable_support_files(path, siblings);
                let parent_supports = parent(path) matches Some(p) && spec_directory_name_supports_candidate(p, d);
                let pev = if parent(path) matches Some(p) && file_name(p) is Some {
                    parent_evidence
                } else {
                    None
                };
                let structure = sib > 0 || (pev matches Some(e) && (e.data_file_hits > 0 || e.app_support_dir_hits > 0
                    || e.support_file_hits > sib));
                let dev_context = pev matches Some(e) && e.development_marker_hits >= 2;
                if !curated && !parent_supports && !structure {
                    None
                } else if !curated && dev_context && sib == 0 {
                    None
                } else if !curated && spec_is_weak_portable_candidate_name(d) {
                    None
                } else {
                    Some(
                        (
                            d,
                            path,
                            if curated {
                                PortableConfidence::High
                            } else {
                                PortableConfidence::Medium
                            },
                            seq!["single executable candidate found"@] + (if curated {
                                seq!["stored under a common portable-app location"@]
                            } else {
                                seq![]
                            }) + (if sib > 0 {
                                seq![counted(sib, " sibling support/config file(s) found"@)]
                            } else {
                                seq![]
                            }) + (if parent_supports {
                                seq!["parent folder name matches the executable"@]
                            } else {
                                seq![]
                            }),
                        ),
                    )
                }
            },
        }
    }
}

/// Evaluates a single executable as a portable application, from the entries of its
/// folder and what a look into that folder found.
pub fn assess_portable_executable(
    path: &str,
    installed_locations: &[String],
    siblings: &[DirEntryName],
    parent_evidence: &Option<PortableDirectoryEvidence>,
) -> (r: Option<PortableAssessment>)
    ensures
        match r {
            Some(a) => spec_assess_portable_executable(path@, key_views(installed_locations@), siblings@, *parent_evidence)
                == Some(assessment_view(a)),
            None => spec_assess_portable_executable(path@, key_views(installed_locations@), siblings@, *parent_evidence) is None,
        },
{
    let p = chars_of(path);
    let is_exe = match crate::plan::extension_exec(p.as_slice()) {
        Some(e) => {
            let el = lower_chars(e.as_slice());
            crate::text::chars_eq_str(el.as_slice(), "exe")
        },
        None => false,
    };
    if !is_exe {
        return None;
    }
    if crate::plan::is_system_install_path(path) || crate::plan::is_installed_location(path, installed_locations)
        || crate::plan::is_probable_installer_executable(path) || crate::plan::is_probable_auxiliary_executable(path) {
        return None;
    }
    let display_name = match crate::plan::infer_portable_display_name(path, path, false) {
        Some(d) => d,
        None => return None,
    };
    let dc = chars_of(display_name.as_str());
    let curated = crate::plan::looks_like_curated_portable_location(path);
    let sib = count_sibling_portable_support_files(path, siblings);
    let parent = crate::winpath::parent_exec(p.as_slice());
    let (parent_supports, parent_named) = match &parent {
        Some(pp) => (
            crate::plan::directory_name_supports_candidate(pp.as_slice(), dc.as_slice()),
            crate::winpath::file_name_exec(pp.as_slice()).is_some(),
        ),
        None => (false, false),
    };
    let (structure, dev_context) = match parent_evidence {
        Some(e) => if parent_named {
            (
                sib > 0 || e.data_file_hits > 0 || e.app_support_dir_hits > 0 || e.support_file_hits > sib,
                e.development_marker_hits >= 2,
            )
        } else {
            (sib > 0, false)
        },
        None => (sib > 0, false),
    };
    if !curated && !parent_supports && !structure {
        return None;
    }
    if !curated && dev_context && sib == 0 {
        return None;
    }
    if !curated && crate::plan::is_weak_portable_candidate_name(dc.as_slice()) {
        return None;
    }
    let confidence = if curated {
        PortableConfidence::High
    } else {
        PortableConfidence::Medium
    };
    let mut reasons: Vec<String> = Vec::new();
    reasons.push("single executable candidate found".to_string());
    if curated {
        reasons.push("stored under a common portable-app location".to_string());
    }
    if sib > 0 {
        reasons.push(counted_exec(sib, " sibling support/config file(s) found"));
    }
    if parent_supports {
        reasons.push("parent folder name matches the executable".to_string());
    }
    let ghost expected = seq!["single executable candidate found"@] + (if curated {
        seq!["stored under a common portable-app location"@]
    } else {
        seq![]
    }) + (if sib > 0 {
        seq![counted(sib as nat, " sibling support/config file(s) found"@)]
    } else {
        seq![]
    }) + (if parent_supports {
        seq!["parent folder name matches the executable"@]
    } else {
        seq![]
    });
    assert(key_views(reasons@) =~= expected);
    Some(PortableAssessment { display_name, main_executable: path.to_string(), confidence, reasons })
}

} // verus!

verus! {

/// A portable candidate as plain values.
pub type CandidateView = (Seq<char>, Seq<char>, Seq<char>, PortableConfidence, PathStats, Seq<Seq<char>>);

pub open spec fn portable_candidate_view(c: PortableAppCandidate) -> CandidateView {
    (c.display_name@, c.root_path@, c.main_executable@, c.confidence, c.stats, key_views(c.reasons@))
}

pub open spec fn portable_candidate_views(s: Seq<PortableAppCandidate>) -> Seq<CandidateView> {
    s.map_values(|c: PortableAppCandidate| portable_candidate_view(c))
}

/// The install locations of the installed applications that record one.
pub open spec fn spec_installed_locations(apps: Seq<crate::models::InstalledAppRecord>) -> Seq<Seq<char>>
    decreases apps.len(),
{
    if apps.len() == 0 {
        seq![]
    } else {
        spec_installed_locations(apps.drop_last()) + match apps.last().install_location {
            Some(l) => seq![l@],
            None => seq![],
        }
    }
}

pub fn installed_locations(apps: &[crate::models::InstalledAppRecord]) -> (r: Vec<String>)
    ensures
        key_views(r@) == spec_installed_locations(apps@),
{
    let mut out: Vec<String> = Vec::new();
    let mut i: usize = 0;
    while i < apps.len()
        invariant
            i <= apps@.len(),
            key_views(out@) == spec_installed_locations(apps@.take(i as int)),
        decreases apps@.len() - i,
    {
        assert(apps@.take(i + 1).drop_last() =~= apps@.take(i as int));
        let ghost before = key_views(out@);
        match &apps[i].install_location {
            Some(l) => {
                out.push(l.clone());
                assert(key_views(out@) =~= before.push(l@));
            },
            None => {},
        }
        i += 1;
    }
    assert(apps@.take(i as int) =~= apps@);
    out
}

/// Whether a scan root is walked for portable applications: not excluded, and existing.
pub fn portable_scan_root_searched(root: &str, excluded_keys: &[String], exists: bool) -> (r: bool)
    ensures
        r == (!crate::plan::spec_is_path_excluded(root@, key_views(excluded_keys@)) && exists),
{
    !crate::plan::is_path_excluded(root, excluded_keys) && exists
}

/// What to do with an entry of the walk of a scan root for portable applications.
#[derive(Debug, Clone, Copy, PartialEq, Eq, Structural)]
pub enum PortableScanStep {
    /// Leave the entry; the walk goes on as the action says.
    Skip(WalkAction),
    /// The entry is an executable to evaluate; the walk goes on.
    Executable,
}

/// Excluded paths, system folders under a drive root, installed locations and noise
/// are skipped; executables are evaluated.
pub open spec fn spec_portable_scan_step(root: Seq<char>, entry: WalkEntry, excluded_keys: Seq<Seq<char>>, installed: Seq<Seq<char>>) -> PortableScanStep {
    if crate::plan::spec_is_path_excluded(entry.path@, excluded_keys) {
        PortableScanStep::Skip(skip_action(entry.is_dir))
    } else if entry.is_dir && crate::plan::spec_should_skip_portable_search_dir(root, entry.path@) {
        PortableScanStep::Skip(WalkAction::SkipDir)
    } else if spec_is_installed_location(entry.path@, installed) || crate::plan::spec_is_known_noise(entry.path@) {
        PortableScanStep::Skip(skip_action(entry.is_dir))
    } else if entry.is_file && crate::plan::spec_is_executable_file(entry.path@) {
        PortableScanStep::Executable
    } else {
        PortableScanStep::Skip(WalkAction::Continue)
    }
}

pub fn portable_scan_step(root: &str, entry: &WalkEntry, excluded_keys: &[String], installed_locations: &[String]) -> (r: PortableScanStep)
    ensures
        r == spec_portable_scan_step(root@, *entry, key_views(excluded_keys@), key_views(installed_locations@)),
{
    let skip = if entry.is_dir {
        WalkAction::SkipDir
    } else {
        WalkAction::Continue
    };
    if crate::plan::is_path_excluded(entry.path.as_str(), excluded_keys) {
        return PortableScanStep::Skip(skip);
    }
    if entry.is_dir && crate::plan::should_skip_portable_search_dir(root, entry.path.as_str()) {
        return PortableScanStep::Skip(WalkAction::SkipDir);
    }
    if crate::plan::is_installed_location(entry.path.as_str(), installed_locations) || crate::plan::is_known_noise(
        entry.path.as_str(),
    ) {
        return PortableScanStep::Skip(skip);
    }
    if entry.is_file && crate::plan::is_executable_file(entry.path.as_str()) {
        return PortableScanStep::Executable;
    }
    PortableScanStep::Skip(WalkAction::Continue)
}

/// What to do about the folder of an executable found by the scan.
#[derive(Debug, Clone)]
pub enum ParentPlan {
    /// The folder was not evaluated yet: evaluate it.
    Evaluate(String),
    /// The folder was evaluated and accepted before.
    AlreadyAccepted,
    /// The folder was evaluated and refused before, or it has no name.
    NotAccepted,
}

/// What the scan evaluates next for an executable it found.
#[derive(Debug, Clone)]
pub enum PortableNext {
    /// Evaluate this folder as a portable application.
    Directory(String),
    /// Evaluate the executable alone.
    Executable,
    /// Nothing more: the executable's folder is a candidate.
    Done,
}

/// A scan root that is itself a file is evaluated as an executable where it is one.
pub fn root_file_is_evaluated(root: &str, is_file: bool) -> (r: bool)
    ensures
        r == (is_file && crate::plan::spec_is_executable_file(root@)),
{
    is_file && crate::plan::is_executable_file(root)
}

/// The portable candidates found so far, each root key once, and the folders already
/// evaluated.
pub struct PortableScan {
    candidates: Vec<PortableAppCandidate>,
    seen_roots: Vec<String>,
    evaluated_dirs: Vec<String>,
}

impl PortableScan {
    /// The keys seen are the root keys of the candidates, which are pairwise distinct.
    /// The fields are private, so only this type's methods keep it.
    pub closed spec fn wf(self) -> bool {
        &&& self.seen_roots@.len() == self.candidates@.len()
        &&& forall|j: int| 0 <= j < self.seen_roots@.len() ==> #[trigger] self.seen_roots@[j]@ == crate::plan::spec_path_key(
            self.candidates@[j].root_path@,
        )
        &&& forall|i: int, j: int| 0 <= i < j < self.candidates@.len() ==> crate::plan::spec_path_key(
            #[trigger] self.candidates@[i].root_path@,
        ) != crate::plan::spec_path_key(#[trigger] self.candidates@[j].root_path@)
    }

    /// The candidates found so far, in order.
    pub closed spec fn found(self) -> Seq<CandidateView> {
        portable_candidate_views(self.candidates@)
    }

    /// The keys of the folders evaluated so far.
    pub closed spec fn evaluated(self) -> Seq<Seq<char>> {
        key_views(self.evaluated_dirs@)
    }

    pub fn new() -> (r: Self)
        ensures
            r.wf(),
            r.found() == Seq::<CandidateView>::empty(),
            r.evaluated() == Seq::<Seq<char>>::empty(),
    {
        let r = PortableScan { candidates: Vec::new(), seen_roots: Vec::new(), evaluated_dirs: Vec::new() };
        assert(r.found() =~= Seq::<CandidateView>::empty());
        assert(r.evaluated() =~= Seq::<Seq<char>>::empty());
        r
    }

    /// Decides about the folder of an executable: a named folder not evaluated yet is
    /// evaluated (and remembered); one evaluated before was accepted where a candidate
    /// has its key.
    pub fn plan_parent(&mut self, executable_path: &str) -> (r: ParentPlan)
        requires
            old(self).wf(),
        ensures
            final(self).wf(),
            final(self).found() == old(self).found(),
            match parent(executable_path@) {
                Some(p) if file_name(p) is Some => if !old(self).evaluated().contains(crate::plan::spec_path_key(p)) {
                    r matches ParentPlan::Evaluate(q) && q@ == p && final(self).evaluated() == old(self).evaluated().push(
                        crate::plan::spec_path_key(p),
                    )
                } else {
                    final(self).evaluated() == old(self).evaluated() && (r is AlreadyAccepted <==> exists|j: int|
                        0 <= j < old(self).found().len() && crate::plan::spec_path_key(#[trigger] old(self).found()[j].1)
                            == crate::plan::spec_path_key(p)) && (r is AlreadyAccepted || r is NotAccepted)
                },
                _ => r is NotAccepted && final(self).evaluated() == old(self).evaluated(),
            },
    {
        let ghost f = self.found();
        let p = chars_of(executable_path);
        let parent = match crate::winpath::parent_exec(p.as_slice()) {
            Some(pp) => pp,
            None => return ParentPlan::NotAccepted,
        };
        if crate::winpath::file_name_exec(parent.as_slice()).is_none() {
            return ParentPlan::NotAccepted;
        }
        let parent_s = string_from(parent.as_slice());
        let key = crate::plan::path_key(parent_s.as_str());
        if !strings_contain(self.evaluated_dirs.as_slice(), key.as_str()) {
            let ghost before = key_views(self.evaluated_dirs@);
            self.evaluated_dirs.push(key);
            assert(key_views(self.evaluated_dirs@) =~= before.push(crate::plan::spec_path_key(parent@)));
            return ParentPlan::Evaluate(parent_s);
        }
        if strings_contain(self.seen_roots.as_slice(), key.as_str()) {
            proof {
                let j = choose|j: int| 0 <= j < key_views(self.seen_roots@).len() && key_views(self.seen_roots@)[j] == key@;
                assert(self.seen_roots@[j]@ == key@);
                assert(f[j].1 == self.candidates@[j].root_path@);
            }
            ParentPlan::AlreadyAccepted
        } else {
            proof {
                assert forall|j: int| 0 <= j < f.len() implies crate::plan::spec_path_key(#[trigger] f[j].1) != crate::plan::spec_path_key(
                    parent@,
                ) by {
                    assert(f[j].1 == self.candidates@[j].root_path@);
                    assert(key_views(self.seen_roots@)[j] == self.seen_roots@[j]@);
                }
            }
            ParentPlan::NotAccepted
        }
    }

    /// Keeps an evaluated candidate unless one with the same root key was kept before;
    /// tells whether there was a candidate at all.
    pub fn add_candidate(&mut self, result: Option<PortableAppCandidate>) -> (accepted: bool)
        requires
            old(self).wf(),
        ensures
            final(self).wf(),
            accepted == result is Some,
            final(self).evaluated() == old(self).evaluated(),
            final(self).found() == match result {
                Some(c) => if exists|j: int| 0 <= j < old(self).found().len() && crate::plan::spec_path_key(
                    #[trigger] old(self).found()[j].1,
                ) == crate::plan::spec_path_key(c.root_path@) {
                    old(self).found()
                } else {
                    old(self).found().push(portable_candidate_view(c))
                },
                None => old(self).found(),
            },
    {
        let c = match result {
            Some(c) => c,
            None => return false,
        };
        let ghost f = self.found();
        let key = crate::plan::path_key(c.root_path.as_str());
        if strings_contain(self.seen_roots.as_slice(), key.as_str()) {
            proof {
                let j = choose|j: int| 0 <= j < key_views(self.seen_roots@).len() && key_views(self.seen_roots@)[j] == key@;
                assert(self.seen_roots@[j]@ == key@);
                assert(f[j].1 == self.candidates@[j].root_path@);
            }
            return true;
        }
        proof {
            assert forall|j: int| 0 <= j < f.len() implies crate::plan::spec_path_key(#[trigger] f[j].1) != crate::plan::spec_path_key(
                c.root_path@,
            ) by {
                assert(f[j].1 == self.candidates@[j].root_path@);
                assert(key_views(self.seen_roots@)[j] == self.seen_roots@[j]@);
            }
        }
        let ghost cv = portable_candidate_view(c);
        let ghost old_c = self.candidates@;
        let ghost root_key = crate::plan::spec_path_key(c.root_path@);
        self.candidates.push(c);
        self.seen_roots.push(key);
        assert(self.found() =~= f.push(cv));
        proof {
            assert forall|i: int, j: int| 0 <= i < j < self.candidates@.len() implies crate::plan::spec_path_key(
                #[trigger] self.candidates@[i].root_path@,
            ) != crate::plan::spec_path_key(#[trigger] self.candidates@[j].root_path@) by {
                if j == old_c.len() {
                    assert(self.candidates@[i] == old_c[i]);
                    assert(f[i].1 == old_c[i].root_path@);
                } else {
                    assert(self.candidates@[i] == old_c[i]);
                    assert(self.candidates@[j] == old_c[j]);
                }
            }
        }
        true
    }

    /// The first step for an executable found by the walk: its folder is evaluated
    /// where planned; where the folder was accepted before, nothing more is done;
    /// otherwise the executable is evaluated alone.
    pub fn begin_executable(&mut self, executable_path: &str) -> (r: PortableNext)
        requires
            old(self).wf(),
        ensures
            final(self).wf(),
            final(self).found() == old(self).found(),
            match parent(executable_path@) {
                Some(p) if file_name(p) is Some => if !old(self).evaluated().contains(crate::plan::spec_path_key(p)) {
                    r matches PortableNext::Directory(q) && q@ == p && final(self).evaluated() == old(self).evaluated().push(
                        crate::plan::spec_path_key(p),
                    )
                } else {
                    final(self).evaluated() == old(self).evaluated() && (r is Done <==> exists|j: int|
                        0 <= j < old(self).found().len() && crate::plan::spec_path_key(#[trigger] old(self).found()[j].1)
                            == crate::plan::spec_path_key(p)) && (r is Done || r is Executable)
                },
                _ => r is Executable && final(self).evaluated() == old(self).evaluated(),
            },
    {
        match self.plan_parent(executable_path) {
            ParentPlan::Evaluate(p) => PortableNext::Directory(p),
            ParentPlan::AlreadyAccepted => PortableNext::Done,
            ParentPlan::NotAccepted => PortableNext::Executable,
        }
    }

    /// The step after a folder was evaluated: its candidate is kept and nothing more
    /// is done; where it gave none, the executable is evaluated alone.
    pub fn after_directory(&mut self, result: Option<PortableAppCandidate>) -> (r: PortableNext)
        requires
            old(self).wf(),
        ensures
            final(self).wf(),
            final(self).evaluated() == old(self).evaluated(),
            final(self).found() == match result {
                Some(c) => if exists|j: int| 0 <= j < old(self).found().len() && crate::plan::spec_path_key(
                    #[trigger] old(self).found()[j].1,
                ) == crate::plan::spec_path_key(c.root_path@) {
                    old(self).found()
                } else {
                    old(self).found().push(portable_candidate_view(c))
                },
                None => old(self).found(),
            },
            if result is Some {
                r is Done
            } else {
                r is Executable
            },
    {
        if self.add_candidate(result) {
            PortableNext::Done
        } else {
            PortableNext::Executable
        }
    }

    /// The candidates found, by display name (a stable order).
    pub fn finish(self) -> (r: Vec<PortableAppCandidate>)
        requires
            self.wf(),
        ensures
            exists|order: Seq<usize>|
                #[trigger] crate::order::is_stable_order(name_keys(self.found()), order) && portable_candidate_views(r@)
                    == in_candidate_order(self.found(), order),
    {
        let ghost cs = self.candidates@;
        let ghost f = self.found();
        assert(f == portable_candidate_views(cs));
        let r = sort_candidates_by_name(self.candidates);
        proof {
            let o = choose|o: Seq<usize>|
                #[trigger] crate::order::is_stable_order(name_keys(portable_candidate_views(cs)), o) && portable_candidate_views(r@)
                    == in_candidate_order(portable_candidate_views(cs), o);
            assert(crate::order::is_stable_order(name_keys(f), o));
        }
        r
    }
}

/// No two candidates of a scan share a root key.
pub proof fn law_scan_roots_distinct(scan: PortableScan, i: int, j: int)
    requires
        scan.wf(),
        0 <= i < j < scan.found().len(),
    ensures
        crate::plan::spec_path_key(scan.found()[i].1) != crate::plan::spec_path_key(scan.found()[j].1),
{
    assert(scan.found()[i].1 == scan.candidates@[i].root_path@);
    assert(scan.found()[j].1 == scan.candidates@[j].root_path@);
}

/// The candidates a scan finishes with have pairwise different root keys: in the
/// order by name that `PortableScan::finish` gives, any two positions hold
/// candidates whose root paths differ in path key.
pub proof fn law_finished_scan_roots_distinct(scan: PortableScan, order: Seq<usize>, a: int, b: int)
    requires
        scan.wf(),
        crate::order::is_stable_order(name_keys(scan.found()), order),
        0 <= a < order.len(),
        0 <= b < order.len(),
        a != b,
    ensures
        crate::plan::spec_path_key(in_candidate_order(scan.found(), order)[a].1) != crate::plan::spec_path_key(
            in_candidate_order(scan.found(), order)[b].1,
        ),
{
    let x = order[a] as int;
    let y = order[b] as int;
    assert(x < scan.found().len() && y < scan.found().len() && x != y);
    if x < y {
        law_scan_roots_distinct(scan, x, y);
    } else {
        law_scan_roots_distinct(scan, y, x);
    }
}

pub open spec fn name_keys(s: Seq<CandidateView>) -> Seq<crate::order::KeyView> {
    s.map_values(|c: CandidateView| (0u64, 0u64, c.0))
}

pub open spec fn in_candidate_order(s: Seq<CandidateView>, order: Seq<usize>) -> Seq<CandidateView> {
    order.map_values(|i: usize| s[i as int])
}

/// Candidates in a stable order by display name.
pub fn sort_candidates_by_name(candidates: Vec<PortableAppCandidate>) -> (r: Vec<PortableAppCandidate>)
    ensures
        exists|order: Seq<usize>|
            #[trigger] crate::order::is_stable_order(name_keys(portable_candidate_views(candidates@)), order)
                && portable_candidate_views(r@) == in_candidate_order(portable_candidate_views(candidates@), order),
{
    let ghost cv = portable_candidate_views(candidates@);
    let mut keys: Vec<crate::order::SortKey> = Vec::new();
    let mut i: usize = 0;
    while i < candidates.len()
        invariant
            i <= candidates@.len(),
            cv == portable_candidate_views(candidates@),
            crate::order::sort_key_views(keys@) == name_keys(cv.take(i as int)),
        decreases candidates@.len() - i,
    {
        let ghost before = crate::order::sort_key_views(keys@);
        keys.push(crate::order::SortKey { first: 0, second: 0, text: chars_of(candidates[i].display_name.as_str()) });
        assert(crate::order::sort_key_views(keys@) =~= before.push((0u64, 0u64, cv[i as int].0)));
        i += 1;
        assert(cv.take(i as int) =~= cv.take(i - 1).push(cv[i - 1]));
        assert(crate::order::sort_key_views(keys@) =~= name_keys(cv.take(i as int)));
    }
    assert(cv.take(i as int) =~= cv);
    let order = crate::order::stable_order(keys.as_slice());
    let mut out: Vec<PortableAppCandidate> = Vec::new();
    let mut k: usize = 0;
    while k < order.len()
        invariant
            k <= order@.len(),
            order@.len() == candidates@.len(),
            forall|m: int| 0 <= m < order@.len() ==> order@[m] < candidates@.len(),
            cv == portable_candidate_views(candidates@),
            portable_candidate_views(out@) == in_candidate_order(cv, order@).take(k as int),
        decreases order@.len() - k,
    {
        let c = &candidates[order[k]];
        let ghost before = portable_candidate_views(out@);
        out.push(
            PortableAppCandidate {
                display_name: c.display_name.clone(),
                root_path: c.root_path.clone(),
                main_executable: c.main_executable.clone(),
                confidence: c.confidence,
                stats: c.stats,
                reasons: crate::backup::copy_strings(&c.reasons),
            },
        );
        assert(portable_candidate_views(out@) =~= before.push(cv[order@[k as int] as int]));
        k += 1;
        assert(in_candidate_order(cv, order@).take(k as int) =~= in_candidate_order(cv, order@).take(k - 1).push(
            in_candidate_order(cv, order@)[k - 1],
        ));
    }
    assert(in_candidate_order(cv, order@).take(k as int) =~= in_candidate_order(cv, order@));
    out
}

} // verus!
