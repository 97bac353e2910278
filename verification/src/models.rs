//! What a scan finds: installed applications, portable application candidates and
//! personal-data roots, each with the size of what it holds.
use vstd::prelude::*;
use crate::text::{chars_of, extend_chars, string_from, to_lowercase, unicode_lowercase};

verus! {

/// How many files a path holds and how many bytes they take.
#[derive(Debug, Clone, Copy)]
pub struct PathStats {
    pub file_count: u64,
    pub total_bytes: u64,
}

impl Default for PathStats {
    fn default() -> (r: Self)
        ensures
            r.file_count == 0,
            r.total_bytes == 0,
    {
        PathStats { file_count: 0, total_bytes: 0 }
    }
}

impl PathStats {
    /// Adds the counts of `other` to these.
    pub fn add(&mut self, other: PathStats)
        requires
            old(self).file_count + other.file_count <= u64::MAX,
            old(self).total_bytes + other.total_bytes <= u64::MAX,
        ensures
            final(self).file_count == old(self).file_count + other.file_count,
            final(self).total_bytes == old(self).total_bytes + other.total_bytes,
    {
        self.file_count += other.file_count;
        self.total_bytes += other.total_bytes;
    }
}

/// An application recorded in the Windows uninstall registry.
#[derive(Debug, Clone)]
pub struct InstalledAppRecord {
    pub display_name: String,
    pub source: String,
    pub install_location: Option<String>,
    pub install_stats: Option<PathStats>,
    pub uninstall_key: String,
}

/// The key by which an installed application is selected.
pub open spec fn spec_selection_key(source: Seq<char>, uninstall_key: Seq<char>, display_name: Seq<char>) -> Seq<char> {
    unicode_lowercase(source) + seq!['|'] + unicode_lowercase(uninstall_key) + seq!['|'] + unicode_lowercase(
        display_name,
    )
}

impl InstalledAppRecord {
    pub open spec fn key(&self) -> Seq<char> {
        spec_selection_key(self.source@, self.uninstall_key@, self.display_name@)
    }

    /// `source|uninstall_key|display_name`, each in lowercase.
    pub fn selection_key(&self) -> (r: String)
        ensures
            r@ == self.key(),
    {
        let mut out: Vec<char> = Vec::new();
        let a = to_lowercase(self.source.as_str());
        extend_chars(&mut out, chars_of(a.as_str()).as_slice());
        out.push('|');
        let b = to_lowercase(self.uninstall_key.as_str());
        extend_chars(&mut out, chars_of(b.as_str()).as_slice());
        out.push('|');
        let c = to_lowercase(self.display_name.as_str());
        extend_chars(&mut out, chars_of(c.as_str()).as_slice());
        assert(out@ =~= self.key());
        string_from(out.as_slice())
    }

    /// Whether the application's install folder is known and was measured.
    pub fn can_backup_files(&self) -> (r: bool)
        ensures
            r == (self.install_location is Some && self.install_stats is Some),
    {
        self.install_location.is_some() && self.install_stats.is_some()
    }
}

/// How sure the scan is that a candidate is a portable application.
#[derive(Debug, Clone, Copy, PartialEq, Eq, Structural)]
pub enum PortableConfidence {
    High,
    Medium,
    Low,
}

/// A folder or single executable that looks like a portable application.
#[derive(Debug, Clone)]
pub struct PortableAppCandidate {
    pub display_name: String,
    pub root_path: String,
    pub main_executable: String,
    pub confidence: PortableConfidence,
    pub stats: PathStats,
    pub reasons: Vec<String>,
}

pub open spec fn spec_confidence_label(c: PortableConfidence) -> Seq<char> {
    match c {
        PortableConfidence::High => "high"@,
        PortableConfidence::Medium => "medium"@,
        PortableConfidence::Low => "low"@,
    }
}

impl PortableAppCandidate {
    /// `high`, `medium` or `low`.
    pub fn confidence_label(&self) -> (r: &'static str)
        ensures
            r@ == spec_confidence_label(self.confidence),
    {
        match self.confidence {
            PortableConfidence::High => "high",
            PortableConfidence::Medium => "medium",
            PortableConfidence::Low => "low",
        }
    }
}

/// A folder or file of personal data proposed for backup.
#[derive(Debug, Clone)]
pub struct UserDataRoot {
    pub category: String,
    pub label: String,
    pub path: String,
    pub reason: String,
    pub stats: PathStats,
}

} // verus!
