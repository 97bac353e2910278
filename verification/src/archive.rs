//! The WinRehome archive: a header, one DEFLATE stream per file, a JSON manifest
//! and a footer that locates the manifest. This module holds the format's rules:
//! entry paths, the footer, entry checks, manifests and restore selection.
use vstd::prelude::*;
use vstd::bytes::{spec_u64_from_le_bytes, spec_u64_to_le_bytes, u64_from_le_bytes, u64_to_le_bytes};
use crate::text::{
    chars_of, decimal, decimal_chars, extend_chars, extend_str, key_views, string_from, trim, trim_chars, trim_dot_chars,
    trim_dots, unicode_lowercase,
};
use crate::winpath::{segments, segments_exec, views};

verus! {

/// Characters that Windows forbids in a file name.
pub open spec fn is_forbidden_name_char(c: char) -> bool {
    c == '\\' || c == '/' || c == ':' || c == '*' || c == '?' || c == '"' || c == '<' || c == '>' || c == '|'
}

pub open spec fn sanitize_char(c: char) -> char {
    if is_forbidden_name_char(c) { '_' } else { c }
}

/// A name made safe as one archive path component: forbidden characters become `_`,
/// then white space and dots are trimmed from both ends.
pub open spec fn spec_sanitize_segment(value: Seq<char>) -> Seq<char> {
    trim_dots(trim(value.map_values(|c: char| sanitize_char(c))))
}

pub fn sanitize_segment_chars(value: &[char]) -> (r: Vec<char>)
    ensures
        r@ == spec_sanitize_segment(value@),
{
    let mut out: Vec<char> = Vec::new();
    let mut i: usize = 0;
    while i < value.len()
        invariant
            i <= value.len(),
            out@ == value@.take(i as int).map_values(|c: char| sanitize_char(c)),
        decreases value.len() - i,
    {
        let c = value[i];
        let forbidden = c == '\\' || c == '/' || c == ':' || c == '*' || c == '?' || c == '"' || c == '<'
            || c == '>' || c == '|';
        if forbidden {
            out.push('_');
        } else {
            out.push(c);
        }
        i += 1;
        assert(value@.take(i as int).map_values(|c: char| sanitize_char(c)) =~= value@.take(i - 1).map_values(
            |c: char| sanitize_char(c),
        ).push(sanitize_char(value@[i - 1])));
    }
    assert(value@.take(value.len() as int) == value@);
    let t = trim_chars(out.as_slice());
    trim_dot_chars(t.as_slice())
}

/// Makes a name safe as one archive path component.
pub fn sanitize_segment(value: &str) -> (r: String)
    ensures
        r@ == spec_sanitize_segment(value@),
{
    let v = chars_of(value);
    let s = sanitize_segment_chars(v.as_slice());
    string_from(s.as_slice())
}

/// The sanitized, non-empty components of a path.
pub open spec fn sanitized_parts(segs: Seq<Seq<char>>) -> Seq<Seq<char>>
    decreases segs.len(),
{
    if segs.len() == 0 {
        seq![]
    } else {
        let rest = sanitized_parts(segs.drop_last());
        let s = spec_sanitize_segment(segs.last());
        if s.len() > 0 {
            rest.push(s)
        } else {
            rest
        }
    }
}

/// Parts joined by a separator.
pub open spec fn join_with(parts: Seq<Seq<char>>, sep: char) -> Seq<char>
    decreases parts.len(),
{
    if parts.len() == 0 {
        seq![]
    } else if parts.len() == 1 {
        parts[0]
    } else {
        join_with(parts.drop_last(), sep) + seq![sep] + parts.last()
    }
}

/// Relative path components made safe for the archive: sanitized, non-empty parts
/// joined by `/`, or `file` where nothing is left.
pub open spec fn spec_sanitize_segments(segs: Seq<Seq<char>>) -> Seq<char> {
    let parts = sanitized_parts(segs);
    if parts.len() == 0 {
        "file"@
    } else {
        join_with(parts, '/')
    }
}

/// A relative path made safe for the archive.
pub open spec fn spec_sanitize_relative_path(path: Seq<char>) -> Seq<char> {
    spec_sanitize_segments(segments(path))
}

pub fn sanitize_segments(segs: &[Vec<char>]) -> (r: String)
    ensures
        r@ == spec_sanitize_segments(views(segs@)),
{
    let ghost s = views(segs@);
    let mut out: Vec<char> = Vec::new();
    let mut count: usize = 0;
    let mut i: usize = 0;
    while i < segs.len()
        invariant
            i <= segs.len(),
            views(segs@) == s,
            count == sanitized_parts(s.take(i as int)).len(),
            count <= i,
            out@ == join_with(sanitized_parts(s.take(i as int)), '/'),
        decreases segs.len() - i,
    {
        assert(s.take(i + 1).drop_last() == s.take(i as int));
        assert(s.take(i + 1).last() == segs@[i as int]@);
        let part = sanitize_segment_chars(segs[i].as_slice());
        if part.len() > 0 {
            if count > 0 {
                out.push('/');
            }
            extend_chars(&mut out, part.as_slice());
            count += 1;
            assert(sanitized_parts(s.take(i + 1)) == sanitized_parts(s.take(i as int)).push(part@));
            assert(sanitized_parts(s.take(i + 1)).drop_last() == sanitized_parts(s.take(i as int)));
        }
        i += 1;
    }
    assert(s.take(segs.len() as int) == s);
    if count == 0 {
        return "file".to_string();
    }
    string_from(out.as_slice())
}

/// Makes a relative path safe for the archive.
pub fn sanitize_relative_path(path: &str) -> (r: String)
    ensures
        r@ == spec_sanitize_relative_path(path@),
{
    let p = chars_of(path);
    let segs = segments_exec(p.as_slice());
    sanitize_segments(segs.as_slice())
}

} // verus!

verus! {

/// The format version this library writes and reads.
pub const FORMAT_VERSION: u32 = 1;

/// Bytes at the start of every archive: `WRH1`.
pub open spec fn header_magic() -> Seq<u8> {
    seq![0x57u8, 0x52u8, 0x48u8, 0x31u8]
}

/// Bytes at the end of every archive: `WRHF`.
pub open spec fn footer_magic() -> Seq<u8> {
    seq![0x57u8, 0x52u8, 0x48u8, 0x46u8]
}

/// Length of the footer: manifest offset, manifest length, magic.
pub const FOOTER_LEN: u64 = 20;

/// The smallest archive: header, footer magic and the two footer numbers.
pub const MIN_ARCHIVE_LEN: u64 = 24;

pub fn header_magic_bytes() -> (r: Vec<u8>)
    ensures
        r@ == header_magic(),
{
    let mut v: Vec<u8> = Vec::new();
    v.push(0x57u8);
    v.push(0x52u8);
    v.push(0x48u8);
    v.push(0x31u8);
    assert(v@ =~= header_magic());
    v
}

/// The footer that locates a manifest of `len` bytes at `offset`.
pub open spec fn spec_footer(offset: u64, len: u64) -> Seq<u8> {
    spec_u64_to_le_bytes(offset) + spec_u64_to_le_bytes(len) + footer_magic()
}

/// Encodes the footer that locates the manifest.
pub fn encode_footer(manifest_offset: u64, manifest_len: u64) -> (r: Vec<u8>)
    ensures
        r@ == spec_footer(manifest_offset, manifest_len),
        r@.len() == FOOTER_LEN,
{
    proof {
        vstd::bytes::lemma_auto_spec_u64_to_from_le_bytes();
    }
    let mut v = u64_to_le_bytes(manifest_offset);
    let b = u64_to_le_bytes(manifest_len);
    let mut i: usize = 0;
    let ghost start = v@;
    while i < 8
        invariant
            i <= 8,
            b@.len() == 8,
            v@ == start + b@.take(i as int),
        decreases 8 - i,
    {
        v.push(b[i]);
        i += 1;
        assert(start + b@.take(i as int) == (start + b@.take(i - 1)).push(b@[i - 1]));
    }
    assert(b@.take(8) == b@);
    v.push(0x57u8);
    v.push(0x52u8);
    v.push(0x48u8);
    v.push(0x46u8);
    assert(v@ =~= spec_footer(manifest_offset, manifest_len));
    v
}

/// Why bytes are not a WinRehome archive this library can read.
#[derive(Debug, Clone, PartialEq, Eq, Structural)]
pub enum ArchiveFormatError {
    TooSmall,
    InvalidHeader,
    InvalidFooter,
    ManifestOutOfBounds,
    UnsupportedVersion { found: u32, expected: u32 },
}

/// Where the manifest lies in an archive.
#[derive(Debug, Clone, Copy, PartialEq, Eq, Structural)]
pub struct ManifestLocation {
    pub offset: u64,
    pub len: u64,
}

/// Locates the manifest of an archive of `archive_len` bytes from its first four and
/// last twenty bytes.
pub open spec fn spec_locate_manifest(archive_len: u64, header: Seq<u8>, footer: Seq<u8>) -> Result<
    ManifestLocation,
    ArchiveFormatError,
> {
    if archive_len < MIN_ARCHIVE_LEN {
        Err(ArchiveFormatError::TooSmall)
    } else if header != header_magic() {
        Err(ArchiveFormatError::InvalidHeader)
    } else if footer.len() != FOOTER_LEN || footer.subrange(16, 20) != footer_magic() {
        Err(ArchiveFormatError::InvalidFooter)
    } else {
        let offset = spec_u64_from_le_bytes(footer.subrange(0, 8));
        let len = spec_u64_from_le_bytes(footer.subrange(8, 16));
        if offset + len > archive_len - FOOTER_LEN {
            Err(ArchiveFormatError::ManifestOutOfBounds)
        } else {
            Ok(ManifestLocation { offset, len })
        }
    }
}

fn slice_range(s: &[u8], lo: usize, hi: usize) -> (r: Vec<u8>)
    requires
        lo <= hi <= s.len(),
    ensures
        r@ == s@.subrange(lo as int, hi as int),
{
    let mut r: Vec<u8> = Vec::new();
    let mut i: usize = lo;
    while i < hi
        invariant
            lo <= i <= hi <= s.len(),
            r@ == s@.subrange(lo as int, i as int),
        decreases hi - i,
    {
        r.push(s[i]);
        i += 1;
        assert(s@.subrange(lo as int, i as int) == s@.subrange(lo as int, i - 1).push(s@[i - 1]));
    }
    r
}

/// Locates the manifest of an archive of `archive_len` bytes, given the bytes read
/// from its start (`header`, four bytes) and its end (`footer`, twenty bytes).
pub fn locate_manifest(archive_len: u64, header: &[u8], footer: &[u8]) -> (r: Result<
    ManifestLocation,
    ArchiveFormatError,
>)
    ensures
        r == spec_locate_manifest(archive_len, header@, footer@),
{
    if archive_len < MIN_ARCHIVE_LEN {
        return Err(ArchiveFormatError::TooSmall);
    }
    let header_ok = header.len() == 4 && header[0] == 0x57u8 && header[1] == 0x52u8 && header[2] == 0x48u8
        && header[3] == 0x31u8;
    proof {
        if header_ok {
            assert(header@ =~= header_magic());
        }
        if header@ == header_magic() {
            assert(header@[0] == 0x57u8);
        }
    }
    if !header_ok {
        return Err(ArchiveFormatError::InvalidHeader);
    }
    let footer_ok = footer.len() == 20 && footer[16] == 0x57u8 && footer[17] == 0x52u8 && footer[18] == 0x48u8
        && footer[19] == 0x46u8;
    proof {
        if footer_ok {
            assert(footer@.subrange(16, 20) =~= footer_magic());
        }
        if footer@.len() == 20 && footer@.subrange(16, 20) == footer_magic() {
            assert(footer@.subrange(16, 20)[0] == footer@[16]);
            assert(footer@.subrange(16, 20)[1] == footer@[17]);
            assert(footer@.subrange(16, 20)[2] == footer@[18]);
            assert(footer@.subrange(16, 20)[3] == footer@[19]);
        }
    }
    if !footer_ok {
        return Err(ArchiveFormatError::InvalidFooter);
    }
    let off_bytes = slice_range(footer, 0, 8);
    let len_bytes = slice_range(footer, 8, 16);
    let offset = u64_from_le_bytes(off_bytes.as_slice());
    let len = u64_from_le_bytes(len_bytes.as_slice());
    let limit = archive_len - FOOTER_LEN;
    if offset > limit || len > limit - offset {
        return Err(ArchiveFormatError::ManifestOutOfBounds);
    }
    Ok(ManifestLocation { offset, len })
}

/// Whether a manifest's format version is the one this library reads.
pub fn check_format_version(found: u32) -> (r: Result<(), ArchiveFormatError>)
    ensures
        r == if found == FORMAT_VERSION {
            Ok::<(), ArchiveFormatError>(())
        } else {
            Err(ArchiveFormatError::UnsupportedVersion { found, expected: FORMAT_VERSION })
        },
{
    if found == FORMAT_VERSION {
        Ok(())
    } else {
        Err(ArchiveFormatError::UnsupportedVersion { found, expected: FORMAT_VERSION })
    }
}

/// A footer written for a manifest that lies inside the archive locates that manifest.
pub proof fn law_footer_round_trip(archive_len: u64, offset: u64, len: u64)
    requires
        archive_len >= MIN_ARCHIVE_LEN,
        offset + len <= archive_len - FOOTER_LEN,
    ensures
        spec_locate_manifest(archive_len, header_magic(), spec_footer(offset, len)) == Ok::<
            ManifestLocation,
            ArchiveFormatError,
        >(ManifestLocation { offset, len }),
{
    vstd::bytes::lemma_auto_spec_u64_to_from_le_bytes();
    let f = spec_footer(offset, len);
    assert(spec_u64_to_le_bytes(offset).len() == 8);
    assert(spec_u64_to_le_bytes(len).len() == 8);
    assert(f.subrange(0, 8) =~= spec_u64_to_le_bytes(offset));
    assert(f.subrange(8, 16) =~= spec_u64_to_le_bytes(len));
    assert(f.subrange(16, 20) =~= footer_magic());
}

} // verus!

verus! {

/// One stored file: where its bytes lie in the archive and how to check them.
#[derive(Debug, Clone)]
pub struct ArchivedFileEntry {
    pub source_path: String,
    pub archive_path: String,
    pub entry_kind: String,
    pub offset: u64,
    pub stored_size: u64,
    pub original_size: u64,
    pub crc32: u32,
}

/// A personal-data root recorded in the manifest.
#[derive(Debug, Clone)]
pub struct ManifestRoot {
    pub category: String,
    pub label: String,
    pub path: String,
    pub reason: String,
}

/// A portable application recorded in the manifest.
#[derive(Debug, Clone)]
pub struct ManifestPortableApp {
    pub display_name: String,
    pub root_path: String,
    pub main_executable: String,
    pub confidence: String,
    pub reasons: Vec<String>,
}

/// An installed application recorded in the manifest.
#[derive(Debug, Clone)]
pub struct ManifestInstalledApp {
    pub display_name: String,
    pub source: String,
    pub install_location: Option<String>,
    pub backup_root: Option<String>,
    pub files_included: bool,
    pub uninstall_key: String,
}

/// The archive's table of contents.
#[derive(Debug, Clone)]
pub struct ArchiveManifest {
    pub format_version: u32,
    pub created_at_unix: u64,
    pub app_name: String,
    pub app_version: String,
    pub installed_apps: Vec<ManifestInstalledApp>,
    pub selected_user_roots: Vec<ManifestRoot>,
    pub selected_portable_apps: Vec<ManifestPortableApp>,
    pub files: Vec<ArchivedFileEntry>,
    pub original_bytes: u64,
    pub stored_bytes: u64,
}

/// A file chosen for backup, before its bytes are stored.
#[derive(Debug, Clone)]
pub struct PendingFile {
    pub source_path: String,
    pub archive_path: String,
    pub entry_kind: String,
}

/// Why stored bytes do not give back the file an entry describes.
#[derive(Debug, Clone, PartialEq, Eq, Structural)]
pub enum EntryCheckError {
    Undecodable,
    SizeMismatch { expected: u64, actual: u64 },
    ChecksumMismatch { expected: u32, actual: u32 },
}

/// The entry written for `data` stored as `stored` at `offset`.
pub open spec fn spec_encoded_entry(pending: PendingFile, data: Seq<u8>, offset: u64, stored: Seq<u8>) -> ArchivedFileEntry {
    ArchivedFileEntry {
        source_path: pending.source_path,
        archive_path: pending.archive_path,
        entry_kind: pending.entry_kind,
        offset,
        stored_size: stored.len() as u64,
        original_size: data.len() as u64,
        crc32: crate::codec::spec_crc32(data),
    }
}

/// Compresses a file's bytes and describes them as an entry at `offset`.
pub fn encode_entry(pending: &PendingFile, data: &[u8], offset: u64) -> (r: Option<(ArchivedFileEntry, Vec<u8>)>)
    ensures
        r is Some,
        r matches Some((e, s)) ==> {
            &&& e == spec_encoded_entry(*pending, data@, offset, s@)
            &&& s@ == crate::codec::spec_deflate(data@)
            &&& crate::codec::spec_inflate(s@) == Some(data@)
        },
{
    let stored = match crate::codec::deflate(data) {
        Some(s) => s,
        None => return None,
    };
    let crc = crate::codec::crc32(data);
    let entry = ArchivedFileEntry {
        source_path: pending.source_path.clone(),
        archive_path: pending.archive_path.clone(),
        entry_kind: pending.entry_kind.clone(),
        offset,
        stored_size: stored.len() as u64,
        original_size: data.len() as u64,
        crc32: crc,
    };
    Some((entry, stored))
}

/// What checking stored bytes against an entry gives: the original bytes, or why not.
pub open spec fn spec_check_entry(entry: ArchivedFileEntry, stored: Seq<u8>) -> Result<Seq<u8>, EntryCheckError> {
    match crate::codec::spec_inflate(stored) {
        None => Err(EntryCheckError::Undecodable),
        Some(d) => if d.len() != entry.original_size {
            Err(EntryCheckError::SizeMismatch { expected: entry.original_size, actual: d.len() as u64 })
        } else if crate::codec::spec_crc32(d) != entry.crc32 {
            Err(EntryCheckError::ChecksumMismatch { expected: entry.crc32, actual: crate::codec::spec_crc32(d) })
        } else {
            Ok(d)
        },
    }
}

/// Decompresses an entry's stored bytes and checks their length and checksum.
pub fn check_entry_payload(entry: &ArchivedFileEntry, stored: &[u8]) -> (r: Result<Vec<u8>, EntryCheckError>)
    ensures
        match r {
            Ok(d) => spec_check_entry(*entry, stored@) == Ok::<Seq<u8>, EntryCheckError>(d@),
            Err(e) => spec_check_entry(*entry, stored@) == Err::<Seq<u8>, EntryCheckError>(e),
        },
{
    let data = match crate::codec::inflate(stored) {
        Some(d) => d,
        None => return Err(EntryCheckError::Undecodable),
    };
    let actual_len = data.len() as u64;
    if actual_len != entry.original_size {
        return Err(EntryCheckError::SizeMismatch { expected: entry.original_size, actual: actual_len });
    }
    let actual_crc = crate::codec::crc32(data.as_slice());
    if actual_crc != entry.crc32 {
        return Err(EntryCheckError::ChecksumMismatch { expected: entry.crc32, actual: actual_crc });
    }
    Ok(data)
}

/// What is read back of a written entry is what was written: checking the bytes that
/// `encode_entry` stored against the entry it described gives back the file's bytes.
pub proof fn law_entry_round_trip(pending: PendingFile, data: Seq<u8>, offset: u64, stored: Seq<u8>)
    requires
        crate::codec::spec_inflate(stored) == Some(data),
        data.len() <= u64::MAX,
    ensures
        spec_check_entry(spec_encoded_entry(pending, data, offset, stored), stored) == Ok::<
            Seq<u8>,
            EntryCheckError,
        >(data),
{
}

} // verus!

verus! {

/// What to restore from an archive.
#[derive(Debug, Clone)]
pub struct RestoreSelection {
    pub restore_user_data: bool,
    pub restore_portable_apps: bool,
    pub restore_installed_app_dirs: bool,
    pub selected_roots: Vec<String>,
    pub skip_existing_files: bool,
}

impl Default for RestoreSelection {
    fn default() -> (r: Self)
        ensures
            r.restore_user_data,
            r.restore_portable_apps,
            r.restore_installed_app_dirs,
            r.selected_roots@.len() == 0,
            !r.skip_existing_files,
    {
        RestoreSelection {
            restore_user_data: true,
            restore_portable_apps: true,
            restore_installed_app_dirs: true,
            selected_roots: Vec::new(),
            skip_existing_files: false,
        }
    }
}

/// An archive path lies at or under a restore root (roots use `/`).
pub open spec fn root_covers(archive_path: Seq<char>, root: Seq<char>) -> bool {
    archive_path == root || crate::text::starts_with(archive_path, root + seq!['/'])
}

/// Whether the selection restores entries of this kind.
pub open spec fn kind_allowed(kind: Seq<char>, sel: RestoreSelection) -> bool {
    if kind == "user_data"@ {
        sel.restore_user_data
    } else if kind == "portable_app"@ {
        sel.restore_portable_apps
    } else if kind == "installed_app"@ {
        sel.restore_installed_app_dirs
    } else {
        false
    }
}

/// Whether the selection restores this entry: its kind is allowed and it lies under a selected root.
pub open spec fn entry_selected(e: ArchivedFileEntry, sel: RestoreSelection) -> bool {
    &&& kind_allowed(e.entry_kind@, sel)
    &&& sel.selected_roots@.len() > 0
    &&& exists|i: int| 0 <= i < sel.selected_roots@.len() && root_covers(e.archive_path@, #[trigger] sel.selected_roots@[i]@)
}

/// Indices of the selected entries among the first `n`, in order.
pub open spec fn selected_indices(files: Seq<ArchivedFileEntry>, sel: RestoreSelection, n: int) -> Seq<usize>
    decreases n,
{
    if n <= 0 {
        seq![]
    } else {
        selected_indices(files, sel, n - 1) + if entry_selected(files[n - 1], sel) {
            seq![(n - 1) as usize]
        } else {
            seq![]
        }
    }
}

pub fn root_covers_exec(archive_path: &[char], root: &[char]) -> (r: bool)
    ensures
        r == root_covers(archive_path@, root@),
{
    if crate::text::chars_eq(archive_path, root) {
        return true;
    }
    let mut with_slash: Vec<char> = Vec::new();
    extend_chars(&mut with_slash, root);
    with_slash.push('/');
    assert(with_slash@ =~= root@ + seq!['/']);
    crate::text::starts_with_chars(archive_path, with_slash.as_slice())
}

fn kind_allowed_exec(kind: &str, sel: &RestoreSelection) -> (r: bool)
    ensures
        r == kind_allowed(kind@, *sel),
{
    let k = chars_of(kind);
    if crate::text::chars_eq_str(k.as_slice(), "user_data") {
        sel.restore_user_data
    } else if crate::text::chars_eq_str(k.as_slice(), "portable_app") {
        sel.restore_portable_apps
    } else if crate::text::chars_eq_str(k.as_slice(), "installed_app") {
        sel.restore_installed_app_dirs
    } else {
        false
    }
}

fn entry_selected_exec(e: &ArchivedFileEntry, sel: &RestoreSelection) -> (r: bool)
    ensures
        r == entry_selected(*e, *sel),
{
    if !kind_allowed_exec(e.entry_kind.as_str(), sel) || sel.selected_roots.len() == 0 {
        return false;
    }
    let p = chars_of(e.archive_path.as_str());
    let mut i: usize = 0;
    while i < sel.selected_roots.len()
        invariant
            i <= sel.selected_roots@.len(),
            p@ == e.archive_path@,
            kind_allowed(e.entry_kind@, *sel),
            sel.selected_roots@.len() > 0,
            forall|j: int| 0 <= j < i ==> !root_covers(e.archive_path@, #[trigger] sel.selected_roots@[j]@),
        decreases sel.selected_roots@.len() - i,
    {
        let root = chars_of(sel.selected_roots[i].as_str());
        if root_covers_exec(p.as_slice(), root.as_slice()) {
            assert(root_covers(e.archive_path@, sel.selected_roots@[i as int]@));
            return true;
        }
        i += 1;
    }
    false
}

/// The indices of the manifest's entries that the selection restores, in order.
pub fn collect_selected_restore_entries(manifest: &ArchiveManifest, selection: &RestoreSelection) -> (r: Vec<usize>)
    ensures
        r@ == selected_indices(manifest.files@, *selection, manifest.files@.len() as int),
{
    let mut out: Vec<usize> = Vec::new();
    let mut i: usize = 0;
    while i < manifest.files.len()
        invariant
            i <= manifest.files@.len(),
            out@ == selected_indices(manifest.files@, *selection, i as int),
        decreases manifest.files@.len() - i,
    {
        if entry_selected_exec(&manifest.files[i], selection) {
            out.push(i);
        }
        i += 1;
        assert(out@ =~= selected_indices(manifest.files@, *selection, i as int));
    }
    out
}

/// Why an archive entry's path cannot be restored under a destination.
#[derive(Debug, Clone)]
pub enum RestorePathError {
    Escapes(String),
    Empty(String),
}

pub open spec fn is_ascii_alpha(c: char) -> bool {
    ('a' <= c && c <= 'z') || ('A' <= c && c <= 'Z')
}

/// The path begins with a separator (a root) or a drive (`X:`).
pub open spec fn is_anchored(p: Seq<char>) -> bool {
    (p.len() > 0 && crate::winpath::is_sep(p[0])) || (p.len() >= 2 && p[1] == ':' && is_ascii_alpha(p[0]))
}

/// The path would leave the restore destination: it is anchored or climbs with `..`.
pub open spec fn escapes_root(p: Seq<char>) -> bool {
    is_anchored(p) || segments(p).contains(seq!['.', '.'])
}

/// `PathBuf::push` of a path without a root: one that begins with a drive (`X:...`)
/// replaces the path built so far; any other is joined on.
pub open spec fn push_component(acc: Seq<char>, seg: Seq<char>) -> Seq<char> {
    if crate::winpath::has_drive(seg) {
        seg
    } else {
        crate::winpath::join(acc, seg)
    }
}

/// The path built by pushing the components in order onto an empty path.
pub open spec fn push_all(segs: Seq<Seq<char>>) -> Seq<char>
    decreases segs.len(),
{
    if segs.len() == 0 {
        seq![]
    } else {
        push_component(push_all(segs.drop_last()), segs.last())
    }
}

pub fn push_component_exec(acc: &[char], seg: &[char]) -> (r: Vec<char>)
    ensures
        r@ == push_component(acc@, seg@),
{
    if seg.len() >= 2 && seg[1] == ':' && (('a' <= seg[0] && seg[0] <= 'z') || ('A' <= seg[0] && seg[0] <= 'Z')) {
        crate::winpath::copy_range(seg, 0, seg.len())
    } else {
        crate::winpath::join_exec(acc, seg)
    }
}

/// The relative path under which an entry is restored: its components pushed in
/// order.
pub open spec fn spec_restore_relative(p: Seq<char>) -> Option<Seq<char>> {
    if escapes_root(p) || segments(p).len() == 0 {
        None
    } else {
        Some(push_all(segments(p)))
    }
}

/// Checks that an entry's archive path stays under the restore destination and
/// gives the relative path to restore it to.
pub fn validate_restore_relative_path(archive_path: &str) -> (r: Result<String, RestorePathError>)
    ensures
        match r {
            Ok(rel) => spec_restore_relative(archive_path@) == Some(rel@),
            Err(RestorePathError::Escapes(p)) => escapes_root(archive_path@) && p@ == archive_path@,
            Err(RestorePathError::Empty(p)) => !escapes_root(archive_path@) && segments(archive_path@).len() == 0
                && p@ == archive_path@,
        },
{
    let p = chars_of(archive_path);
    let anchored = (p.len() > 0 && (p[0] == '\\' || p[0] == '/')) || (p.len() >= 2 && p[1] == ':' && (('a'
        <= p[0] && p[0] <= 'z') || ('A' <= p[0] && p[0] <= 'Z')));
    let segs = segments_exec(p.as_slice());
    let ghost s = segments(p@);
    let mut climbs = false;
    let mut i: usize = 0;
    while i < segs.len()
        invariant
            i <= segs.len(),
            views(segs@) == s,
            climbs == exists|j: int| 0 <= j < i && #[trigger] s[j] == seq!['.', '.'],
        decreases segs.len() - i,
    {
        assert(s[i as int] == segs@[i as int]@);
        if crate::winpath::is_dotdot(segs[i].as_slice()) {
            climbs = true;
        }
        i += 1;
    }
    proof {
        if climbs {
            let j = choose|j: int| 0 <= j < s.len() && #[trigger] s[j] == seq!['.', '.'];
            assert(s.contains(seq!['.', '.']));
        }
        if s.contains(seq!['.', '.']) {
            let j = choose|j: int| 0 <= j < s.len() && s[j] == seq!['.', '.'];
            assert(s[j] == seq!['.', '.']);
        }
    }
    if anchored || climbs {
        return Err(RestorePathError::Escapes(string_from(p.as_slice())));
    }
    if segs.len() == 0 {
        return Err(RestorePathError::Empty(string_from(p.as_slice())));
    }
    let mut out: Vec<char> = Vec::new();
    let mut k: usize = 0;
    assert(s.take(0) =~= Seq::<Seq<char>>::empty());
    while k < segs.len()
        invariant
            k <= segs.len(),
            views(segs@) == s,
            out@ == push_all(s.take(k as int)),
        decreases segs.len() - k,
    {
        assert(s.take(k + 1).drop_last() == s.take(k as int));
        assert(s.take(k + 1).last() == segs@[k as int]@);
        out = push_component_exec(out.as_slice(), segs[k].as_slice());
        k += 1;
    }
    assert(s.take(segs.len() as int) == s);
    Ok(string_from(out.as_slice()))
}

} // verus!

verus! {

/// Where one selected entry is restored.
#[derive(Debug, Clone)]
pub struct RestoreTarget {
    pub entry_index: usize,
    pub output_path: String,
}

/// Why a selection cannot be restored under a destination.
#[derive(Debug, Clone)]
pub enum RestorePlanError {
    NothingToRestore,
    Escapes(String),
    Empty(String),
    Duplicate(String),
}

/// The spec of a planning outcome: the targets as (entry index, output path), or the error
/// with the text it carries.
pub enum PlanOutcome {
    Targets(Seq<(usize, Seq<char>)>),
    NothingToRestore,
    Escapes(Seq<char>),
    Empty(Seq<char>),
    Duplicate(Seq<char>),
}

/// One planning step: the entry with archive path `p` is restored under `dest`, unless
/// its path leaves the destination, is empty, or lands on an output path already planned
/// (compared by path key).
pub open spec fn plan_step(ts: Seq<(usize, Seq<char>)>, dest: Seq<char>, index: usize, p: Seq<char>) -> PlanOutcome {
    if escapes_root(p) {
        PlanOutcome::Escapes(p)
    } else if segments(p).len() == 0 {
        PlanOutcome::Empty(p)
    } else {
        let out = push_component(dest, push_all(segments(p)));
        if exists|j: int| 0 <= j < ts.len() && unicode_lowercase(#[trigger] ts[j].1) == unicode_lowercase(out) {
            PlanOutcome::Duplicate(out)
        } else {
            PlanOutcome::Targets(ts.push((index, out)))
        }
    }
}

/// Planning the first `k` selected entries: each entry's path must stay under the
/// destination, and no two outputs may share a path key.
pub open spec fn plan_prefix(dest: Seq<char>, files: Seq<ArchivedFileEntry>, idx: Seq<usize>, k: int) -> PlanOutcome
    decreases k,
{
    if k <= 0 {
        PlanOutcome::Targets(seq![])
    } else {
        match plan_prefix(dest, files, idx, k - 1) {
            PlanOutcome::Targets(ts) => plan_step(ts, dest, idx[k - 1], files[idx[k - 1] as int].archive_path@),
            other => other,
        }
    }
}

/// Planning a restore of `selection` from `manifest` under `dest`.
pub open spec fn spec_plan_restore(dest: Seq<char>, manifest: ArchiveManifest, selection: RestoreSelection) -> PlanOutcome {
    let idx = selected_indices(manifest.files@, selection, manifest.files@.len() as int);
    if idx.len() == 0 {
        PlanOutcome::NothingToRestore
    } else {
        plan_prefix(dest, manifest.files@, idx, idx.len() as int)
    }
}

/// The spec outcome a planning result stands for.
pub open spec fn plan_result_view(r: Result<Vec<RestoreTarget>, RestorePlanError>) -> PlanOutcome {
    match r {
        Ok(ts) => PlanOutcome::Targets(target_views(ts@)),
        Err(e) => plan_error_view(e),
    }
}

pub open spec fn plan_error_view(e: RestorePlanError) -> PlanOutcome {
    match e {
        RestorePlanError::NothingToRestore => PlanOutcome::NothingToRestore,
        RestorePlanError::Escapes(p) => PlanOutcome::Escapes(p@),
        RestorePlanError::Empty(p) => PlanOutcome::Empty(p@),
        RestorePlanError::Duplicate(p) => PlanOutcome::Duplicate(p@),
    }
}

pub open spec fn target_views(ts: Seq<RestoreTarget>) -> Seq<(usize, Seq<char>)> {
    ts.map_values(|t: RestoreTarget| (t.entry_index, t.output_path@))
}

/// The targets chosen so far while planning a restore, one entry at a time.
pub struct RestoreTargetPlanner {
    targets: Vec<RestoreTarget>,
    keys: Vec<String>,
}

impl RestoreTargetPlanner {
    /// The keys kept beside the targets are their path keys. The fields are private,
    /// so only this type's methods keep it.
    pub closed spec fn wf(self) -> bool {
        &&& self.keys@.len() == self.targets@.len()
        &&& forall|j: int| 0 <= j < self.keys@.len() ==> #[trigger] self.keys@[j]@ == unicode_lowercase(self.targets@[j].output_path@)
    }

    /// The targets planned so far, as (entry index, output path).
    pub closed spec fn planned(self) -> Seq<(usize, Seq<char>)> {
        target_views(self.targets@)
    }

    pub fn new() -> (p: Self)
        ensures
            p.wf(),
            p.planned() == Seq::<(usize, Seq<char>)>::empty(),
    {
        let p = RestoreTargetPlanner { targets: Vec::new(), keys: Vec::new() };
        assert(target_views(p.targets@) =~= Seq::<(usize, Seq<char>)>::empty());
        p
    }

    /// Plans the entry `entry_index`, whose archive path is `archive_path`, under
    /// `destination_root`; gives its output path or the error that stops the plan.
    pub fn push_entry(&mut self, destination_root: &str, entry_index: usize, archive_path: &str) -> (r: Result<String, RestorePlanError>)
        requires
            old(self).wf(),
        ensures
            final(self).wf(),
            match plan_step(old(self).planned(), destination_root@, entry_index, archive_path@) {
                PlanOutcome::Targets(ts) => r matches Ok(out) && final(self).planned() == ts && out@ == ts.last().1,
                other => r matches Err(e) && plan_error_view(e) == other && final(self).planned() == old(self).planned(),
            },
    {
        let ghost ts = self.planned();
        let rel = match validate_restore_relative_path(archive_path) {
            Ok(rel) => rel,
            Err(RestorePathError::Escapes(p)) => {
                return Err(RestorePlanError::Escapes(p));
            },
            Err(RestorePathError::Empty(p)) => {
                return Err(RestorePlanError::Empty(p));
            },
        };
        let dest = chars_of(destination_root);
        let relc = chars_of(rel.as_str());
        let out = push_component_exec(dest.as_slice(), relc.as_slice());
        let out_s = string_from(out.as_slice());
        let key = crate::plan::path_key(out_s.as_str());
        if crate::text::strings_contain(self.keys.as_slice(), key.as_str()) {
            proof {
                let j = choose|j: int| 0 <= j < key_views(self.keys@).len() && key_views(self.keys@)[j] == key@;
                assert(self.keys@[j]@ == key@);
                assert(ts[j].1 == self.targets@[j].output_path@);
            }
            return Err(RestorePlanError::Duplicate(out_s));
        }
        proof {
            assert forall|j: int| 0 <= j < ts.len() implies unicode_lowercase(#[trigger] ts[j].1) != unicode_lowercase(out@) by {
                assert(ts[j].1 == self.targets@[j].output_path@);
                assert(key_views(self.keys@)[j] == self.keys@[j]@);
            }
        }
        let result = out_s.clone();
        self.targets.push(RestoreTarget { entry_index, output_path: out_s });
        self.keys.push(key);
        assert(target_views(self.targets@) =~= ts.push((entry_index, out@)));
        Ok(result)
    }

    /// The targets planned, in order.
    pub fn into_targets(self) -> (r: Vec<RestoreTarget>)
        ensures
            target_views(r@) == self.planned(),
    {
        self.targets
    }
}

/// Chooses where each selected entry is restored under `destination_root`, refusing
/// an empty selection, paths that leave the destination and outputs that collide.
pub fn plan_restore_targets(destination_root: &str, manifest: &ArchiveManifest, selection: &RestoreSelection) -> (r: Result<Vec<RestoreTarget>, RestorePlanError>)
    ensures
        plan_result_view(r) == spec_plan_restore(destination_root@, *manifest, *selection),
        r matches Ok(ts) ==> forall|i: int| 0 <= i < ts@.len() ==> (#[trigger] ts@[i]).entry_index < manifest.files@.len(),
{
    let idx = collect_selected_restore_entries(manifest, selection);
    if idx.len() == 0 {
        return Err(RestorePlanError::NothingToRestore);
    }
    let ghost files = manifest.files@;
    let mut planner = RestoreTargetPlanner::new();
    let mut k: usize = 0;
    proof {
        assert forall|i: int| 0 <= i < idx@.len() implies idx@[i] < files.len() by {
            lemma_selected_indices_bound(files, *selection, files.len() as int, i);
        }
    }
    while k < idx.len()
        invariant
            k <= idx@.len(),
            files == manifest.files@,
            idx@ == selected_indices(files, *selection, files.len() as int),
            forall|i: int| 0 <= i < idx@.len() ==> idx@[i] < files.len(),
            planner.wf(),
            plan_prefix(destination_root@, files, idx@, k as int) == PlanOutcome::Targets(planner.planned()),
            forall|j: int| 0 <= j < planner.planned().len() ==> (#[trigger] planner.planned()[j]).0 < files.len(),
        decreases idx@.len() - k,
    {
        let entry = &manifest.files[idx[k]];
        match planner.push_entry(destination_root, idx[k], entry.archive_path.as_str()) {
            Ok(_) => {},
            Err(e) => {
                proof {
                    lemma_plan_error_sticks(destination_root@, files, idx@, k + 1, idx@.len() as int);
                }
                return Err(e);
            },
        }
        k += 1;
    }
    let targets = planner.into_targets();
    proof {
        assert forall|i: int| 0 <= i < targets@.len() implies (#[trigger] targets@[i]).entry_index < manifest.files@.len() by {
            assert(target_views(targets@)[i].0 == targets@[i].entry_index);
        }
    }
    Ok(targets)
}

proof fn lemma_plan_error_sticks(dest: Seq<char>, files: Seq<ArchivedFileEntry>, idx: Seq<usize>, k: int, m: int)
    requires
        0 <= k <= m,
        !(plan_prefix(dest, files, idx, k) is Targets),
    ensures
        plan_prefix(dest, files, idx, m) == plan_prefix(dest, files, idx, k),
    decreases m - k,
{
    if m > k {
        lemma_plan_error_sticks(dest, files, idx, k, m - 1);
    }
}

proof fn lemma_selected_indices_bound(files: Seq<ArchivedFileEntry>, sel: RestoreSelection, n: int, i: int)
    requires
        0 <= n <= files.len(),
        0 <= i < selected_indices(files, sel, n).len(),
    ensures
        selected_indices(files, sel, n)[i] < n,
    decreases n,
{
    if n > 0 {
        let prev = selected_indices(files, sel, n - 1);
        if i < prev.len() {
            lemma_selected_indices_bound(files, sel, n - 1, i);
        }
    }
}

} // verus!

verus! {

/// `prefix` followed by `rest`, as text.
pub fn concat_str(prefix: &str, rest: &str) -> (r: String)
    ensures
        r@ == prefix@ + rest@,
{
    let mut v: Vec<char> = Vec::new();
    extend_str(&mut v, prefix);
    extend_str(&mut v, rest);
    assert(v@ =~= prefix@ + rest@);
    string_from(v.as_slice())
}

impl RestorePathError {
    /// The error's message.
    pub fn message(&self) -> (r: String)
        ensures
            r@ == match self {
                RestorePathError::Escapes(p) => "archive entry path escapes restore root: "@ + p@,
                RestorePathError::Empty(p) => "archive entry path is empty: "@ + p@,
            },
    {
        match self {
            RestorePathError::Escapes(p) => concat_str("archive entry path escapes restore root: ", p.as_str()),
            RestorePathError::Empty(p) => concat_str("archive entry path is empty: ", p.as_str()),
        }
    }
}

impl RestorePlanError {
    /// The error's message.
    pub fn message(&self) -> (r: String)
        ensures
            r@ == match self {
                RestorePlanError::NothingToRestore => "Archive does not contain any files to restore."@,
                RestorePlanError::Escapes(p) => "archive entry path escapes restore root: "@ + p@,
                RestorePlanError::Empty(p) => "archive entry path is empty: "@ + p@,
                RestorePlanError::Duplicate(p) => "restore target path is duplicated in archive: "@ + p@,
            },
    {
        match self {
            RestorePlanError::NothingToRestore => "Archive does not contain any files to restore.".to_string(),
            RestorePlanError::Escapes(p) => concat_str("archive entry path escapes restore root: ", p.as_str()),
            RestorePlanError::Empty(p) => concat_str("archive entry path is empty: ", p.as_str()),
            RestorePlanError::Duplicate(p) => concat_str("restore target path is duplicated in archive: ", p.as_str()),
        }
    }
}

/// A restore that would write under an existing file: the destination, or a planned
/// target, has an existing file among its parents (the nearest such file is given).
#[derive(Debug, Clone)]
pub enum RestoreBlockedError {
    Destination(String),
    Target(String),
}

impl RestoreBlockedError {
    /// The error's message.
    pub fn message(&self) -> (r: String)
        ensures
            r@ == match self {
                RestoreBlockedError::Destination(p) => "restore destination is blocked by existing file: "@ + p@,
                RestoreBlockedError::Target(p) => "restore target is blocked by existing file: "@ + p@,
            },
    {
        match self {
            RestoreBlockedError::Destination(p) => concat_str("restore destination is blocked by existing file: ", p.as_str()),
            RestoreBlockedError::Target(p) => concat_str("restore target is blocked by existing file: ", p.as_str()),
        }
    }
}

/// Checks a restore destination before planning: `blocker` is the nearest existing
/// file among its parents, found by the caller, or `None`.
pub fn check_restore_destination(blocker: Option<String>) -> (r: Result<(), RestoreBlockedError>)
    ensures
        match blocker {
            Some(b) => r matches Err(RestoreBlockedError::Destination(p)) && p@ == b@,
            None => r is Ok,
        },
{
    match blocker {
        Some(b) => Err(RestoreBlockedError::Destination(b)),
        None => Ok(()),
    }
}

/// Checks a planned restore target: `blocker` is the nearest existing file among its
/// parents, found by the caller, or `None`.
pub fn check_restore_target(blocker: Option<String>) -> (r: Result<(), RestoreBlockedError>)
    ensures
        match blocker {
            Some(b) => r matches Err(RestoreBlockedError::Target(p)) && p@ == b@,
            None => r is Ok,
        },
{
    match blocker {
        Some(b) => Err(RestoreBlockedError::Target(b)),
        None => Ok(()),
    }
}

impl ArchiveFormatError {
    /// The error's message.
    pub fn message(&self) -> (r: String)
        ensures
            r@ == match self {
                ArchiveFormatError::TooSmall => "Archive is too small to be a valid WinRehome archive."@,
                ArchiveFormatError::InvalidHeader => "Invalid WinRehome archive header."@,
                ArchiveFormatError::InvalidFooter => "Invalid WinRehome archive footer."@,
                ArchiveFormatError::ManifestOutOfBounds => "Manifest location is outside the archive bounds."@,
                ArchiveFormatError::UnsupportedVersion { found, expected } => "Unsupported WinRehome archive format version "@
                    + decimal(*found as nat) + " (expected "@ + decimal(*expected as nat) + ")."@,
            },
    {
        match self {
            ArchiveFormatError::TooSmall => "Archive is too small to be a valid WinRehome archive.".to_string(),
            ArchiveFormatError::InvalidHeader => "Invalid WinRehome archive header.".to_string(),
            ArchiveFormatError::InvalidFooter => "Invalid WinRehome archive footer.".to_string(),
            ArchiveFormatError::ManifestOutOfBounds => "Manifest location is outside the archive bounds.".to_string(),
            ArchiveFormatError::UnsupportedVersion { found, expected } => {
                let mut v: Vec<char> = Vec::new();
                extend_str(&mut v, "Unsupported WinRehome archive format version ");
                let f = decimal_chars(*found as u64);
                extend_chars(&mut v, f.as_slice());
                extend_str(&mut v, " (expected ");
                let e = decimal_chars(*expected as u64);
                extend_chars(&mut v, e.as_slice());
                extend_str(&mut v, ").");
                string_from(v.as_slice())
            },
        }
    }
}

/// The message of an entry-check error for the entry at `archive_path`, where
/// `stage` is `verify` or `restore`.
pub open spec fn spec_entry_check_message(e: EntryCheckError, stage: Seq<char>, archive_path: Seq<char>) -> Seq<char> {
    match e {
        EntryCheckError::Undecodable => "corrupt deflate stream"@,
        EntryCheckError::SizeMismatch { expected, actual } => stage + " size mismatch for "@ + archive_path
            + ": expected "@ + decimal(expected as nat) + ", got "@ + decimal(actual as nat),
        EntryCheckError::ChecksumMismatch { expected, actual } => stage + " checksum mismatch for "@
            + archive_path + ": expected "@ + decimal(expected as nat) + ", got "@ + decimal(actual as nat),
    }
}

impl EntryCheckError {
    /// The error's message for the entry at `archive_path`, where `stage` is `verify`
    /// or `restore`. A stream that cannot be decoded is reported with the text the
    /// DEFLATE decoder gives for it.
    pub fn message(&self, stage: &str, archive_path: &str) -> (r: String)
        ensures
            r@ == spec_entry_check_message(*self, stage@, archive_path@),
    {
        if let EntryCheckError::Undecodable = self {
            return "corrupt deflate stream".to_string();
        }
        let mut v: Vec<char> = Vec::new();
        extend_str(&mut v, stage);
        match self {
            EntryCheckError::Undecodable => {},
            EntryCheckError::SizeMismatch { expected, actual } => {
                extend_str(&mut v, " size mismatch for ");
                extend_str(&mut v, archive_path);
                extend_str(&mut v, ": expected ");
                let e = decimal_chars(*expected);
                extend_chars(&mut v, e.as_slice());
                extend_str(&mut v, ", got ");
                let a = decimal_chars(*actual);
                extend_chars(&mut v, a.as_slice());
            },
            EntryCheckError::ChecksumMismatch { expected, actual } => {
                extend_str(&mut v, " checksum mismatch for ");
                extend_str(&mut v, archive_path);
                extend_str(&mut v, ": expected ");
                let e = decimal_chars(*expected as u64);
                extend_chars(&mut v, e.as_slice());
                extend_str(&mut v, ", got ");
                let a = decimal_chars(*actual as u64);
                extend_chars(&mut v, a.as_slice());
            },
        }
        string_from(v.as_slice())
    }
}

} // verus!

verus! {

proof fn lemma_join_with_segments(segs: Seq<Seq<char>>, sep: char)
    requires
        crate::winpath::is_sep(sep),
        forall|j: int| 0 <= j < segs.len() ==> crate::winpath::is_component(#[trigger] segs[j]),
    ensures
        segments(join_with(segs, sep)) == segs,
    decreases segs.len(),
{
    if segs.len() == 0 {
        assert(segments(join_with(segs, sep)) =~= segs) by {
            reveal_with_fuel(crate::winpath::segments_from, 2);
        }
    } else if segs.len() == 1 {
        crate::winpath::lemma_segments_component(segs[0]);
        assert(seq![segs[0]] =~= segs);
    } else {
        let init = segs.drop_last();
        assert forall|j: int| 0 <= j < init.len() implies crate::winpath::is_component(#[trigger] init[j]) by {
            assert(init[j] == segs[j]);
        }
        lemma_join_with_segments(init, sep);
        crate::winpath::lemma_segments_split(join_with(init, sep), sep, segs.last());
        crate::winpath::lemma_segments_component(segs.last());
        assert(init + seq![segs.last()] =~= segs);
    }
}

/// A component that a restore pushes under its destination as it is: not `..`,
/// and not beginning with a drive (`X:`).
pub open spec fn plain(s: Seq<char>) -> bool {
    s != seq!['.', '.'] && !crate::winpath::has_drive(s)
}

/// A sanitized name holds no separator and no `:`, and does not start with a dot.
pub proof fn lemma_sanitized_shape(v: Seq<char>)
    ensures
        forall|j: int| 0 <= j < spec_sanitize_segment(v).len() ==> !crate::winpath::is_sep(#[trigger] spec_sanitize_segment(v)[j])
            && spec_sanitize_segment(v)[j] != ':',
        spec_sanitize_segment(v).len() > 0 ==> spec_sanitize_segment(v)[0] != '.',
{
    let m = v.map_values(|c: char| sanitize_char(c));
    let u = trim(m);
    let r = spec_sanitize_segment(v);
    crate::text::lemma_trim_by_stretch(m, crate::text::ws_pred());
    crate::text::lemma_trim_by_stretch(u, crate::text::dot_pred());
    let l1 = crate::text::leading(m, crate::text::ws_pred()) as int;
    let l2 = crate::text::leading(u, crate::text::dot_pred()) as int;
    assert forall|j: int| 0 <= j < r.len() implies !crate::winpath::is_sep(#[trigger] r[j]) && r[j] != ':' by {
        assert(r[j] == u[l2 + j]);
        assert(u[l2 + j] == m[l1 + l2 + j]);
        assert(m[l1 + l2 + j] == sanitize_char(v[l1 + l2 + j]));
    }
}

/// A nonempty sanitized name is a component, and plain.
proof fn lemma_sanitized_component(v: Seq<char>)
    ensures
        plain(spec_sanitize_segment(v)),
        spec_sanitize_segment(v).len() > 0 ==> crate::winpath::is_component(spec_sanitize_segment(v)),
{
    lemma_sanitized_shape(v);
    let r = spec_sanitize_segment(v);
    if r.len() > 0 {
        assert(r != seq!['.']) by {
            if r == seq!['.'] {
                assert(r[0] == '.');
            }
        }
    }
    assert(r != seq!['.', '.']) by {
        if r == seq!['.', '.'] {
            assert(r[0] == '.');
        }
    }
}

proof fn lemma_sanitized_parts_components(segs: Seq<Seq<char>>)
    ensures
        forall|j: int| 0 <= j < sanitized_parts(segs).len() ==> crate::winpath::is_component(#[trigger] sanitized_parts(segs)[j])
            && plain(sanitized_parts(segs)[j]),
    decreases segs.len(),
{
    if segs.len() > 0 {
        lemma_sanitized_parts_components(segs.drop_last());
        lemma_sanitized_component(segs.last());
        let rest = sanitized_parts(segs.drop_last());
        let cur = sanitized_parts(segs);
        let last = spec_sanitize_segment(segs.last());
        if last.len() > 0 {
            assert(cur == rest.push(last));
            assert forall|j: int| 0 <= j < cur.len() implies crate::winpath::is_component(#[trigger] cur[j]) && plain(cur[j]) by {
                if j < rest.len() {
                    assert(cur[j] == rest[j]);
                }
            }
        } else {
            assert(cur == rest);
        }
    }
}

/// The components of a sanitized relative path: the sanitized parts, or `file`;
/// all of them plain.
pub proof fn lemma_sanitized_relative_components(segs: Seq<Seq<char>>)
    ensures
        segments(spec_sanitize_segments(segs)).len() > 0,
        forall|j: int| 0 <= j < segments(spec_sanitize_segments(segs)).len() ==> plain(#[trigger] segments(spec_sanitize_segments(segs))[j]),
{
    let parts = sanitized_parts(segs);
    lemma_sanitized_parts_components(segs);
    if parts.len() == 0 {
        reveal_strlit("file");
        let f = "file"@;
        assert forall|j: int| 0 <= j < f.len() implies !crate::winpath::is_sep(#[trigger] f[j]) by {}
        crate::winpath::lemma_segments_sep_free(f);
        assert(crate::winpath::kept(f));
        assert(f != seq!['.', '.']);
        assert(!crate::winpath::has_drive(f));
    } else {
        lemma_join_with_segments(parts, '/');
    }
}

/// A nonempty sanitized name as a path: itself, and plain; an empty one: nothing.
pub proof fn lemma_sanitized_name_components(v: Seq<char>)
    ensures
        forall|j: int| 0 <= j < segments(spec_sanitize_segment(v)).len() ==> plain(#[trigger] segments(spec_sanitize_segment(v))[j]),
{
    lemma_sanitized_shape(v);
    lemma_sanitized_component(v);
    crate::winpath::lemma_segments_sep_free(spec_sanitize_segment(v));
}

/// An output path lies strictly under the destination: it has the destination's
/// components (prefix and root included), then at least one more, none of which is
/// `..`.
pub open spec fn strictly_under(out: Seq<char>, dest: Seq<char>) -> bool {
    let d = crate::winpath::components(dest);
    let o = crate::winpath::components(out);
    &&& d.len() < o.len()
    &&& o.take(d.len() as int) == d
    &&& !o.skip(d.len() as int).contains(seq!['.', '.'])
}

/// No component of the path begins with a drive (`X:`).
pub open spec fn no_drive_components(p: Seq<char>) -> bool {
    forall|j: int| 0 <= j < segments(p).len() ==> !crate::winpath::has_drive(#[trigger] segments(p)[j])
}

proof fn lemma_push_all_plain(segs: Seq<Seq<char>>)
    requires
        forall|j: int| 0 <= j < segs.len() ==> crate::winpath::is_component(#[trigger] segs[j]) && !crate::winpath::has_drive(segs[j]),
    ensures
        push_all(segs) == join_with(segs, '\\'),
        segs.len() > 0 ==> push_all(segs).len() > 0 && !crate::winpath::is_sep(push_all(segs).last())
            && !crate::winpath::has_drive(push_all(segs)) && !crate::winpath::is_sep(push_all(segs)[0])
            && !crate::winpath::dot_start(push_all(segs)),
    decreases segs.len(),
{
    if segs.len() > 0 {
        let init = segs.drop_last();
        let last = segs.last();
        assert forall|j: int| 0 <= j < init.len() implies crate::winpath::is_component(#[trigger] init[j]) && !crate::winpath::has_drive(init[j]) by {
            assert(init[j] == segs[j]);
        }
        lemma_push_all_plain(init);
        assert(crate::winpath::is_component(last) && !crate::winpath::has_drive(last));
        assert(!crate::winpath::is_sep(last[last.len() - 1]));
        if init.len() == 0 {
            assert(push_all(init) =~= Seq::<char>::empty());
            assert(push_all(segs) == last);
            assert(segs[0] == last);
            assert(!crate::winpath::is_sep(last[0]));
            if last.len() == 1 && last[0] == '.' {
                assert(last =~= seq!['.']);
            }
            if last.len() > 1 {
                assert(!crate::winpath::is_sep(last[1]));
            }
        } else {
            let a = push_all(init);
            assert(!crate::winpath::is_drive_only(a));
            let r = a + seq!['\\'] + last;
            assert(push_all(segs) == r);
            assert(r.last() == last.last());
            if a.len() >= 2 {
                assert(r[0] == a[0] && r[1] == a[1]);
            } else {
                assert(r[0] == a[0]);
                assert(r[1] == '\\');
            }
        }
    }
}

proof fn lemma_plan_prefix_under(dest: Seq<char>, files: Seq<ArchivedFileEntry>, idx: Seq<usize>, k: int)
    requires
        0 <= k,
        k <= idx.len(),
        forall|i: int| 0 <= i < idx.len() ==> idx[i] < files.len(),
        forall|i: int| 0 <= i < files.len() ==> no_drive_components(#[trigger] files[i].archive_path@),
        !crate::winpath::is_drive_only(dest),
        !crate::winpath::is_bare_double_sep(dest),
    ensures
        plan_prefix(dest, files, idx, k) matches PlanOutcome::Targets(ts) ==> forall|j: int|
            0 <= j < ts.len() ==> strictly_under(#[trigger] ts[j].1, dest),
    decreases k,
{
    if k > 0 {
        lemma_plan_prefix_under(dest, files, idx, k - 1);
        if let PlanOutcome::Targets(prev) = plan_prefix(dest, files, idx, k - 1) {
            let p = files[idx[k - 1] as int].archive_path@;
            if !escapes_root(p) && segments(p).len() > 0 {
                assert(no_drive_components(files[idx[k - 1] as int].archive_path@));
                assert forall|j: int| 0 <= j < segments(p).len() implies crate::winpath::is_component(#[trigger] segments(p)[j])
                    && !crate::winpath::has_drive(segments(p)[j]) by {
                    crate::winpath::lemma_segments_are_components(p, j);
                }
                lemma_push_all_plain(segments(p));
                let out = crate::winpath::join(dest, join_with(segments(p), '\\'));
                assert(push_component(dest, push_all(segments(p))) == out);
                lemma_join_with_segments(segments(p), '\\');
                crate::winpath::lemma_components_join(dest, join_with(segments(p), '\\'));
                let d = crate::winpath::components(dest);
                let o = crate::winpath::components(out);
                assert(o == d + segments(p));
                assert(o.take(d.len() as int) =~= d);
                assert(o.skip(d.len() as int) =~= segments(p));
            }
        }
    }
}

/// A restore never writes outside its destination: every output path of a
/// successful plan lies strictly under the destination folder, with none of the
/// components below it being `..`. Left out: a bare drive such as `C:` as
/// destination, whose outputs are drive-relative (`C:user\...`); a destination
/// that begins with two separators without being a UNC path (`\\server`), onto
/// which an output reads as a server and share; and archive paths with a component
/// that begins with a drive (`a/C:x`), which replaces the destination when pushed.
pub proof fn law_restore_targets_stay_under_destination(dest: Seq<char>, manifest: ArchiveManifest, selection: RestoreSelection, j: int)
    requires
        !crate::winpath::is_drive_only(dest),
        !crate::winpath::is_bare_double_sep(dest),
        forall|i: int| 0 <= i < manifest.files@.len() ==> no_drive_components(#[trigger] manifest.files@[i].archive_path@),
        spec_plan_restore(dest, manifest, selection) matches PlanOutcome::Targets(ts) && 0 <= j < ts.len(),
    ensures
        spec_plan_restore(dest, manifest, selection) matches PlanOutcome::Targets(ts) && strictly_under(ts[j].1, dest),
{
    let idx = selected_indices(manifest.files@, selection, manifest.files@.len() as int);
    assert forall|i: int| 0 <= i < idx.len() implies idx[i] < manifest.files@.len() by {
        lemma_selected_indices_bound(manifest.files@, selection, manifest.files@.len() as int, i);
    }
    lemma_plan_prefix_under(dest, manifest.files@, idx, idx.len() as int);
}

/// An accepted archive path gives a relative path whose components are exactly the
/// archive path's names: at least one, none of them `..`, and no prefix or root
/// among them, so joining it onto a destination stays under the destination. Left
/// out: archive paths with a component that begins with a drive (`a/C:x`), which
/// replaces what was built before it.
pub proof fn law_restore_relative_components(p: Seq<char>)
    requires
        spec_restore_relative(p) is Some,
        no_drive_components(p),
    ensures
        crate::winpath::components(spec_restore_relative(p).unwrap()) == segments(p),
        segments(p).len() > 0,
        !segments(p).contains(seq!['.', '.']),
{
    let s = segments(p);
    assert forall|j: int| 0 <= j < s.len() implies crate::winpath::is_component(#[trigger] s[j]) && !crate::winpath::has_drive(s[j]) by {
        crate::winpath::lemma_segments_are_components(p, j);
    }
    lemma_push_all_plain(s);
    lemma_join_with_segments(s, '\\');
    let rel = push_all(s);
    let e = Seq::<char>::empty();
    crate::winpath::lemma_components_join(e, rel);
    assert(crate::winpath::join(e, rel) == rel);
    assert(segments(e) =~= Seq::<Seq<char>>::empty()) by {
        reveal_with_fuel(crate::winpath::segments_from, 2);
    }
    assert(e.skip(0) =~= e);
    assert(crate::winpath::components(e) =~= Seq::<Seq<char>>::empty());
    assert(crate::winpath::components(e) + segments(rel) =~= segments(rel));
}

/// An archive path is refused as leaving the destination exactly when it has a
/// prefix (a drive or a UNC share), a root, or a `..` among its names.
pub proof fn law_restore_path_escapes_by_components(p: Seq<char>)
    ensures
        escapes_root(p) <==> (crate::winpath::prefix_len(p) > 0 || crate::winpath::has_root(p) || crate::winpath::body_segments(
            p,
        ).contains(seq!['.', '.'])),
{
    if !is_anchored(p) {
        assert(!crate::winpath::is_unc(p));
        assert(!crate::winpath::has_drive(p));
        assert(p.skip(0) =~= p);
    } else if p.len() > 0 && crate::winpath::is_sep(p[0]) {
        assert(!crate::winpath::has_drive(p));
    }
}

proof fn lemma_no_roots_selects_nothing(files: Seq<ArchivedFileEntry>, sel: RestoreSelection, n: int)
    requires
        sel.selected_roots@.len() == 0,
        0 <= n,
    ensures
        selected_indices(files, sel, n).len() == 0,
    decreases n,
{
    if n > 0 {
        lemma_no_roots_selects_nothing(files, sel, n - 1);
    }
}

/// A selection without roots restores nothing: planning it reports that there is
/// nothing to restore, whatever the archive holds.
pub proof fn law_empty_selection_restores_nothing(dest: Seq<char>, manifest: ArchiveManifest, selection: RestoreSelection)
    requires
        selection.selected_roots@.len() == 0,
    ensures
        spec_plan_restore(dest, manifest, selection) == PlanOutcome::NothingToRestore,
{
    lemma_no_roots_selects_nothing(manifest.files@, selection, manifest.files@.len() as int);
}

proof fn lemma_plan_prefix_distinct(dest: Seq<char>, files: Seq<ArchivedFileEntry>, idx: Seq<usize>, k: int)
    requires
        0 <= k,
    ensures
        plan_prefix(dest, files, idx, k) matches PlanOutcome::Targets(ts) ==> forall|i: int, j: int|
            0 <= i < j < ts.len() ==> unicode_lowercase(#[trigger] ts[i].1) != unicode_lowercase(#[trigger] ts[j].1),
    decreases k,
{
    if k > 0 {
        lemma_plan_prefix_distinct(dest, files, idx, k - 1);
    }
}

proof fn lemma_selected_indices_shape(files: Seq<ArchivedFileEntry>, sel: RestoreSelection, n: int)
    requires
        0 <= n <= files.len(),
        n <= usize::MAX,
    ensures
        forall|j: int| 0 <= j < selected_indices(files, sel, n).len() ==> (#[trigger] selected_indices(files, sel, n)[j]) < n
            && entry_selected(files[selected_indices(files, sel, n)[j] as int], sel),
        forall|a: int, b: int| 0 <= a < b < selected_indices(files, sel, n).len() ==> (#[trigger] selected_indices(files, sel, n)[a])
            < (#[trigger] selected_indices(files, sel, n)[b]),
        forall|i: int| 0 <= i < n && entry_selected(#[trigger] files[i], sel) ==> exists|j: int| 0 <= j < selected_indices(files, sel, n).len()
            && selected_indices(files, sel, n)[j] == i,
    decreases n,
{
    if n > 0 {
        lemma_selected_indices_shape(files, sel, n - 1);
        let prev = selected_indices(files, sel, n - 1);
        let cur = selected_indices(files, sel, n);
        if entry_selected(files[n - 1], sel) {
            assert(cur == prev + seq![(n - 1) as usize]);
            assert forall|j: int| 0 <= j < prev.len() implies cur[j] == prev[j] by {}
            assert(cur[prev.len() as int] == n - 1);
            assert forall|i: int| 0 <= i < n && entry_selected(#[trigger] files[i], sel) implies exists|j: int| 0 <= j < cur.len()
                && cur[j] == i by {
                if i == n - 1 {
                    assert(cur[prev.len() as int] == i);
                } else {
                    let j = choose|j: int| 0 <= j < prev.len() && prev[j] == i;
                    assert(cur[j] == i);
                }
            }
        } else {
            assert(cur =~= prev);
        }
    }
}

proof fn lemma_plan_prefix_indices(dest: Seq<char>, files: Seq<ArchivedFileEntry>, idx: Seq<usize>, k: int)
    requires
        0 <= k <= idx.len(),
    ensures
        plan_prefix(dest, files, idx, k) matches PlanOutcome::Targets(ts) ==> ts.len() == k && forall|j: int| 0 <= j < k ==> (#[trigger] ts[j]).0 == idx[j],
    decreases k,
{
    if k > 0 {
        lemma_plan_prefix_indices(dest, files, idx, k - 1);
    }
}

/// A successful plan restores exactly what the selection picks: one target for each
/// entry of an allowed kind that lies under a selected root, in archive order, and
/// no other entry.
pub proof fn law_restore_plan_follows_the_selection(dest: Seq<char>, manifest: ArchiveManifest, selection: RestoreSelection)
    requires
        spec_plan_restore(dest, manifest, selection) is Targets,
    ensures
        spec_plan_restore(dest, manifest, selection) matches PlanOutcome::Targets(ts) && {
            let files = manifest.files@;
            &&& forall|j: int| 0 <= j < ts.len() ==> (#[trigger] ts[j]).0 < files.len() && entry_selected(files[ts[j].0 as int], selection)
            &&& forall|a: int, b: int| 0 <= a < b < ts.len() ==> (#[trigger] ts[a]).0 < (#[trigger] ts[b]).0
            &&& forall|i: int| 0 <= i < files.len() && entry_selected(#[trigger] files[i], selection) ==> exists|j: int| 0 <= j < ts.len() && ts[j].0 == i
        },
{
    let files = manifest.files@;
    assert(files.len() == manifest.files.len());
    let idx = selected_indices(files, selection, files.len() as int);
    lemma_selected_indices_shape(files, selection, files.len() as int);
    lemma_plan_prefix_indices(dest, files, idx, idx.len() as int);
    let ts = spec_plan_restore(dest, manifest, selection)->Targets_0;
    assert forall|a: int, b: int| 0 <= a < b < ts.len() implies (#[trigger] ts[a]).0 < (#[trigger] ts[b]).0 by {
        assert(ts[a].0 == idx[a] && ts[b].0 == idx[b]);
    }
    assert forall|j: int| 0 <= j < ts.len() implies (#[trigger] ts[j]).0 < files.len() && entry_selected(files[ts[j].0 as int], selection) by {
        assert(ts[j].0 == idx[j]);
    }
    assert forall|i: int| 0 <= i < files.len() && entry_selected(#[trigger] files[i], selection) implies exists|j: int| 0 <= j < ts.len() && ts[j].0 == i by {
        let j = choose|j: int| 0 <= j < idx.len() && idx[j] == i;
        assert(ts[j].0 == idx[j]);
    }
}

/// Which entries a restore takes: an entry is selected exactly when the selection
/// asks for its category (a `user_data` entry only with user data switched on, a
/// `portable_app` entry only with portable apps on, an `installed_app` entry only
/// with installed-app folders on, any other kind never) and its archive path is a
/// selected root or lies under one (`root/...`).
pub proof fn law_restore_selection_by_category_and_root(files: Seq<ArchivedFileEntry>, sel: RestoreSelection, i: int)
    requires
        0 <= i < files.len(),
        files.len() <= usize::MAX,
    ensures
        (exists|j: int| 0 <= j < selected_indices(files, sel, files.len() as int).len()
            && #[trigger] selected_indices(files, sel, files.len() as int)[j] == i) <==> ({
            &&& (files[i].entry_kind@ == "user_data"@ && sel.restore_user_data) || (files[i].entry_kind@ == "portable_app"@
                && sel.restore_portable_apps) || (files[i].entry_kind@ == "installed_app"@ && sel.restore_installed_app_dirs)
            &&& exists|r: int| 0 <= r < sel.selected_roots@.len() && (files[i].archive_path@ == #[trigger] sel.selected_roots@[r]@
                || crate::text::starts_with(files[i].archive_path@, sel.selected_roots@[r]@ + seq!['/']))
        }),
{
    reveal_strlit("user_data");
    reveal_strlit("portable_app");
    reveal_strlit("installed_app");
    let n = files.len() as int;
    let idx = selected_indices(files, sel, n);
    lemma_selected_indices_shape(files, sel, n);
    let k = files[i].entry_kind@;
    assert("user_data"@ != "portable_app"@) by {
        assert("user_data"@.len() != "portable_app"@.len());
    }
    assert("user_data"@ != "installed_app"@) by {
        assert("user_data"@[0] != "installed_app"@[0]);
    }
    assert("portable_app"@ != "installed_app"@) by {
        assert("portable_app"@[0] != "installed_app"@[0]);
    }
    let wanted = (k == "user_data"@ && sel.restore_user_data) || (k == "portable_app"@ && sel.restore_portable_apps) || (k
        == "installed_app"@ && sel.restore_installed_app_dirs);
    assert(kind_allowed(k, sel) == wanted);
    if exists|j: int| 0 <= j < idx.len() && #[trigger] idx[j] == i {
        let j = choose|j: int| 0 <= j < idx.len() && #[trigger] idx[j] == i;
        assert(entry_selected(files[idx[j] as int], sel));
        let r = choose|r: int| 0 <= r < sel.selected_roots@.len() && root_covers(files[i].archive_path@, #[trigger] sel.selected_roots@[r]@);
        assert(files[i].archive_path@ == sel.selected_roots@[r]@ || crate::text::starts_with(files[i].archive_path@, sel.selected_roots@[r]@
            + seq!['/']));
    }
    if wanted && exists|r: int| 0 <= r < sel.selected_roots@.len() && (files[i].archive_path@ == #[trigger] sel.selected_roots@[r]@
        || crate::text::starts_with(files[i].archive_path@, sel.selected_roots@[r]@ + seq!['/'])) {
        let r = choose|r: int| 0 <= r < sel.selected_roots@.len() && (files[i].archive_path@ == #[trigger] sel.selected_roots@[r]@
            || crate::text::starts_with(files[i].archive_path@, sel.selected_roots@[r]@ + seq!['/']));
        assert(root_covers(files[i].archive_path@, sel.selected_roots@[r]@));
        assert(entry_selected(files[i], sel));
    }
}

/// No two outputs of a successful plan share a path key.
pub proof fn law_restore_targets_distinct(dest: Seq<char>, manifest: ArchiveManifest, selection: RestoreSelection, i: int, j: int)
    requires
        spec_plan_restore(dest, manifest, selection) matches PlanOutcome::Targets(ts) && 0 <= i < j < ts.len(),
    ensures
        spec_plan_restore(dest, manifest, selection) matches PlanOutcome::Targets(ts) && unicode_lowercase(ts[i].1)
            != unicode_lowercase(ts[j].1),
{
    let idx = selected_indices(manifest.files@, selection, manifest.files@.len() as int);
    lemma_plan_prefix_distinct(dest, manifest.files@, idx, idx.len() as int);
}

} // verus!
