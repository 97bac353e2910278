//! Restoring and verifying an archive: the preflight summary of what a restore would
//! write, the decisions taken for each target, the tallies and the messages.
use vstd::prelude::*;
use crate::archive::{
    ArchiveManifest, ArchivedFileEntry, EntryCheckError, RestoreTarget, sanitize_segment,
    spec_sanitize_segment,
};
use crate::text::{chars_of, decimal, decimal_chars, extend_chars, extend_str, key_views, string_from, strings_contain};

verus! {

/// What a restore would do before it starts.
#[derive(Debug, Clone)]
pub struct RestorePreflight {
    pub selected_files: usize,
    pub new_files: usize,
    pub conflicting_files: usize,
    pub new_examples: Vec<String>,
    pub conflict_examples: Vec<String>,
    pub destination_exists: bool,
    pub destination_is_directory: bool,
}

impl Default for RestorePreflight {
    fn default() -> (r: Self)
        ensures
            r.selected_files == 0,
            r.new_files == 0,
            r.conflicting_files == 0,
            r.new_examples@.len() == 0,
            r.conflict_examples@.len() == 0,
            !r.destination_exists,
            !r.destination_is_directory,
    {
        RestorePreflight {
            selected_files: 0,
            new_files: 0,
            conflicting_files: 0,
            new_examples: Vec::new(),
            conflict_examples: Vec::new(),
            destination_exists: false,
            destination_is_directory: false,
        }
    }
}

/// The output paths among the first `k` targets whose existence flag is `want`, in order.
pub open spec fn outputs_where(ts: Seq<RestoreTarget>, exists: Seq<bool>, want: bool, k: int) -> Seq<Seq<char>>
    decreases k,
{
    if k <= 0 {
        seq![]
    } else {
        outputs_where(ts, exists, want, k - 1) + if exists[k - 1] == want {
            seq![ts[k - 1].output_path@]
        } else {
            seq![]
        }
    }
}

/// At most the first three of a list.
pub open spec fn first_three(s: Seq<Seq<char>>) -> Seq<Seq<char>> {
    if s.len() <= 3 {
        s
    } else {
        s.take(3)
    }
}

proof fn lemma_outputs_where_len(ts: Seq<RestoreTarget>, exists: Seq<bool>, k: int)
    requires
        0 <= k,
    ensures
        outputs_where(ts, exists, true, k).len() + outputs_where(ts, exists, false, k).len() == k,
    decreases k,
{
    if k > 0 {
        lemma_outputs_where_len(ts, exists, k - 1);
    }
}

/// Summarizes a planned restore: `output_exists[i]` tells whether the output path of
/// `targets[i]` already exists. Existing outputs are conflicts, the others new files,
/// and each kind keeps its first three output paths as examples.
pub fn summarize_restore_preflight(
    targets: &[RestoreTarget],
    output_exists: &[bool],
    destination_exists: bool,
    destination_is_directory: bool,
) -> (r: RestorePreflight)
    requires
        output_exists.len() == targets.len(),
    ensures
        r.selected_files == targets.len(),
        r.conflicting_files == outputs_where(targets@, output_exists@, true, targets.len() as int).len(),
        r.new_files == outputs_where(targets@, output_exists@, false, targets.len() as int).len(),
        key_views(r.conflict_examples@) == first_three(outputs_where(targets@, output_exists@, true, targets.len() as int)),
        key_views(r.new_examples@) == first_three(outputs_where(targets@, output_exists@, false, targets.len() as int)),
        r.destination_exists == destination_exists,
        r.destination_is_directory == destination_is_directory,
{
    let mut preview = RestorePreflight {
        selected_files: targets.len(),
        new_files: 0,
        conflicting_files: 0,
        new_examples: Vec::new(),
        conflict_examples: Vec::new(),
        destination_exists,
        destination_is_directory,
    };
    let mut i: usize = 0;
    while i < targets.len()
        invariant
            i <= targets.len() == output_exists.len(),
            preview.selected_files == targets.len(),
            preview.destination_exists == destination_exists,
            preview.destination_is_directory == destination_is_directory,
            preview.conflicting_files == outputs_where(targets@, output_exists@, true, i as int).len(),
            preview.new_files == outputs_where(targets@, output_exists@, false, i as int).len(),
            key_views(preview.conflict_examples@) == first_three(outputs_where(targets@, output_exists@, true, i as int)),
            key_views(preview.new_examples@) == first_three(outputs_where(targets@, output_exists@, false, i as int)),
        decreases targets.len() - i,
    {
        proof {
            lemma_outputs_where_len(targets@, output_exists@, i as int);
        }
        let ghost c = outputs_where(targets@, output_exists@, true, i as int);
        let ghost n = outputs_where(targets@, output_exists@, false, i as int);
        let path = targets[i].output_path.clone();
        if output_exists[i] {
            preview.conflicting_files += 1;
            let ghost ex = preview.conflict_examples@;
            assert(key_views(ex).len() == ex.len());
            if preview.conflict_examples.len() < 3 {
                preview.conflict_examples.push(path);
                assert(key_views(preview.conflict_examples@) =~= key_views(ex).push(targets@[i as int].output_path@));
            }
            proof {
                assert(outputs_where(targets@, output_exists@, true, i + 1) == c.push(targets@[i as int].output_path@));
                assert(outputs_where(targets@, output_exists@, false, i + 1) == n);
            }
        } else {
            preview.new_files += 1;
            let ghost ex = preview.new_examples@;
            assert(key_views(ex).len() == ex.len());
            if preview.new_examples.len() < 3 {
                preview.new_examples.push(path);
                assert(key_views(preview.new_examples@) =~= key_views(ex).push(targets@[i as int].output_path@));
            }
            proof {
                assert(outputs_where(targets@, output_exists@, false, i + 1) == n.push(targets@[i as int].output_path@));
                assert(outputs_where(targets@, output_exists@, true, i + 1) == c);
            }
        }
        i += 1;
        assert(key_views(preview.conflict_examples@) =~= first_three(outputs_where(targets@, output_exists@, true, i as int)));
        assert(key_views(preview.new_examples@) =~= first_three(outputs_where(targets@, output_exists@, false, i as int)));
    }
    preview
}

} // verus!

verus! {

/// The outcome of a restore.
#[derive(Debug, Clone)]
pub struct RestoreResult {
    pub archive_path: String,
    pub destination_root: String,
    pub restored_files: usize,
    pub restored_bytes: u64,
    pub skipped_existing_files: usize,
}

/// How far a restore has come.
#[derive(Debug, Clone)]
pub struct RestoreProgress {
    pub processed_files: usize,
    pub total_files: usize,
    pub current_path: String,
}

/// The outcome of verifying an archive.
#[derive(Debug, Clone)]
pub struct VerificationResult {
    pub archive_path: String,
    pub verified_files: usize,
    pub verified_bytes: u64,
}

/// What to do with one restore target.
#[derive(Debug, Clone, Copy, PartialEq, Eq, Structural)]
pub enum RestoreAction {
    Write,
    Skip,
}

/// Why a restore stopped at a target.
#[derive(Debug, Clone)]
pub enum RestoreRunError {
    AlreadyExists(String),
    Check { archive_path: String, error: EntryCheckError },
    /// A count or the byte total of the restore would not fit its type.
    TotalTooLarge,
}

impl RestoreRunError {
    /// The error's message.
    pub fn message(&self) -> (r: String)
        ensures
            r@ == match self {
                RestoreRunError::AlreadyExists(p) => "restore target already exists: "@ + p@,
                RestoreRunError::Check { archive_path, error } => crate::archive::spec_entry_check_message(*error, "restore"@, archive_path@),
                RestoreRunError::TotalTooLarge => "restored totals do not fit their counters"@,
            },
    {
        match self {
            RestoreRunError::AlreadyExists(p) => crate::archive::concat_str("restore target already exists: ", p.as_str()),
            RestoreRunError::Check { archive_path, error } => error.message("restore", archive_path.as_str()),
            RestoreRunError::TotalTooLarge => "restored totals do not fit their counters".to_string(),
        }
    }
}

/// The counts a restore keeps as it goes.
#[derive(Debug, Clone, Copy)]
pub struct RestoreTally {
    pub restored_files: usize,
    pub restored_bytes: u64,
    pub skipped_existing_files: usize,
}

impl RestoreTally {
    pub fn new() -> (r: Self)
        ensures
            r.restored_files == 0,
            r.restored_bytes == 0,
            r.skipped_existing_files == 0,
    {
        RestoreTally { restored_files: 0, restored_bytes: 0, skipped_existing_files: 0 }
    }

    /// Decides about a target before anything is written: a new output is written;
    /// an existing one is skipped where the selection says so, and stops the restore
    /// otherwise.
    pub fn decide(&mut self, output_path: &str, output_exists: bool, skip_existing_files: bool) -> (r: Result<RestoreAction, RestoreRunError>)
        requires
            old(self).skipped_existing_files < usize::MAX,
        ensures
            !output_exists ==> r == Ok::<RestoreAction, RestoreRunError>(RestoreAction::Write) && *final(self) == *old(self),
            output_exists && skip_existing_files ==> r == Ok::<RestoreAction, RestoreRunError>(RestoreAction::Skip)
                && final(self).skipped_existing_files == old(self).skipped_existing_files + 1
                && final(self).restored_files == old(self).restored_files
                && final(self).restored_bytes == old(self).restored_bytes,
            output_exists && !skip_existing_files ==> (r matches Err(RestoreRunError::AlreadyExists(p)) && p@ == output_path@
                && *final(self) == *old(self)),
    {
        if !output_exists {
            return Ok(RestoreAction::Write);
        }
        if skip_existing_files {
            self.skipped_existing_files += 1;
            return Ok(RestoreAction::Skip);
        }
        Err(RestoreRunError::AlreadyExists(output_path.to_string()))
    }

    /// Decodes and checks an entry's stored bytes; on success counts the file and its
    /// bytes and gives the bytes to write.
    pub fn restore_entry(&mut self, entry: &ArchivedFileEntry, stored: &[u8]) -> (r: Result<Vec<u8>, RestoreRunError>)
        requires
            old(self).restored_files < usize::MAX,
            old(self).restored_bytes + entry.original_size <= u64::MAX,
        ensures
            match crate::archive::spec_check_entry(*entry, stored@) {
                Ok(d) => r matches Ok(data) && data@ == d && final(self).restored_files == old(self).restored_files + 1
                    && final(self).restored_bytes == old(self).restored_bytes + d.len()
                    && final(self).skipped_existing_files == old(self).skipped_existing_files,
                Err(e) => r matches Err(RestoreRunError::Check { archive_path, error }) && error == e
                    && archive_path@ == entry.archive_path@ && *final(self) == *old(self),
            },
    {
        match crate::archive::check_entry_payload(entry, stored) {
            Ok(data) => {
                self.restored_files += 1;
                self.restored_bytes += data.len() as u64;
                Ok(data)
            },
            Err(e) => Err(RestoreRunError::Check { archive_path: entry.archive_path.clone(), error: e }),
        }
    }
}

/// How many of the targets handled were written.
pub open spec fn count_written(done: Seq<(ArchivedFileEntry, bool)>) -> nat
    decreases done.len(),
{
    if done.len() == 0 {
        0
    } else {
        count_written(done.drop_last()) + if done.last().1 {
            1nat
        } else {
            0nat
        }
    }
}

/// The sizes of the targets handled that were written, added up.
pub open spec fn written_bytes(done: Seq<(ArchivedFileEntry, bool)>) -> nat
    decreases done.len(),
{
    if done.len() == 0 {
        0
    } else {
        written_bytes(done.drop_last()) + if done.last().1 {
            done.last().0.original_size as nat
        } else {
            0nat
        }
    }
}

proof fn lemma_count_written_le(done: Seq<(ArchivedFileEntry, bool)>)
    ensures
        count_written(done) <= done.len(),
    decreases done.len(),
{
    if done.len() > 0 {
        lemma_count_written_le(done.drop_last());
    }
}

/// A restore in progress: the entries handled so far, each written or skipped as an
/// existing file, and the counts they make.
pub struct RestoreRun {
    tally: RestoreTally,
    skip_existing_files: bool,
    done: Ghost<Seq<(ArchivedFileEntry, bool)>>,
}

impl RestoreRun {
    /// The entries handled so far, in order, each with whether it was written.
    pub closed spec fn done(self) -> Seq<(ArchivedFileEntry, bool)> {
        self.done@
    }

    /// Whether existing targets are skipped rather than refused.
    pub closed spec fn skips(self) -> bool {
        self.skip_existing_files
    }

    /// The counts are those of the entries handled, and nothing is skipped unless
    /// skipping is on. The fields are private, so only this type's methods keep it.
    pub closed spec fn wf(self) -> bool {
        &&& self.tally.restored_files == count_written(self.done@)
        &&& self.tally.skipped_existing_files == self.done@.len() - count_written(self.done@)
        &&& self.tally.restored_bytes == written_bytes(self.done@)
        &&& !self.skip_existing_files ==> forall|i: int| 0 <= i < self.done@.len() ==> (#[trigger] self.done@[i]).1
    }

    pub fn new(skip_existing_files: bool) -> (r: Self)
        ensures
            r.wf(),
            r.done() == Seq::<(ArchivedFileEntry, bool)>::empty(),
            r.skips() == skip_existing_files,
    {
        RestoreRun { tally: RestoreTally::new(), skip_existing_files, done: Ghost(Seq::empty()) }
    }

    /// Decides about the target of `entry` before anything is written: a new output is
    /// to be written; an existing one is skipped where skipping is on (and counted as
    /// handled), and stops the restore otherwise.
    pub fn decide(&mut self, entry: &ArchivedFileEntry, output_path: &str, output_exists: bool) -> (r: Result<RestoreAction, RestoreRunError>)
        requires
            old(self).wf(),
        ensures
            final(self).wf(),
            final(self).skips() == old(self).skips(),
            !output_exists ==> r == Ok::<RestoreAction, RestoreRunError>(RestoreAction::Write) && final(self).done() == old(self).done(),
            output_exists && !old(self).skips() ==> (r matches Err(RestoreRunError::AlreadyExists(p)) && p@ == output_path@
                && final(self).done() == old(self).done()),
            output_exists && old(self).skips() ==> if old(self).done().len() - count_written(old(self).done()) < usize::MAX {
                r == Ok::<RestoreAction, RestoreRunError>(RestoreAction::Skip) && final(self).done() == old(self).done().push(
                    (*entry, false),
                )
            } else {
                r matches Err(RestoreRunError::TotalTooLarge) && final(self).done() == old(self).done()
            },
    {
        if !output_exists {
            return Ok(RestoreAction::Write);
        }
        if !self.skip_existing_files {
            return Err(RestoreRunError::AlreadyExists(output_path.to_string()));
        }
        if self.tally.skipped_existing_files == usize::MAX {
            return Err(RestoreRunError::TotalTooLarge);
        }
        let ghost before = self.done@;
        let action = self.tally.decide(output_path, true, true);
        self.done = Ghost(before.push((*entry, false)));
        proof {
            assert(self.done@.drop_last() =~= before);
            lemma_count_written_le(before);
        }
        action
    }

    /// Decodes and checks the stored bytes of `entry`, whose target is to be written;
    /// on success counts it as written and gives the bytes to write. A stream that does
    /// not check stops the restore with its error.
    pub fn write(&mut self, entry: &ArchivedFileEntry, stored: &[u8]) -> (r: Result<Vec<u8>, RestoreRunError>)
        requires
            old(self).wf(),
        ensures
            final(self).wf(),
            final(self).skips() == old(self).skips(),
            match crate::archive::spec_check_entry(*entry, stored@) {
                Ok(d) => if count_written(old(self).done()) < usize::MAX && written_bytes(old(self).done()) + d.len() <= u64::MAX {
                    r matches Ok(data) && data@ == d && final(self).done() == old(self).done().push((*entry, true))
                } else {
                    r matches Err(RestoreRunError::TotalTooLarge) && final(self).done() == old(self).done()
                },
                Err(e) => r matches Err(RestoreRunError::Check { archive_path, error }) && error == e
                    && archive_path@ == entry.archive_path@ && final(self).done() == old(self).done(),
            },
    {
        let ghost before = self.done@;
        if self.tally.restored_files == usize::MAX || entry.original_size > u64::MAX - self.tally.restored_bytes {
            return match crate::archive::check_entry_payload(entry, stored) {
                Ok(_) => Err(RestoreRunError::TotalTooLarge),
                Err(e) => Err(RestoreRunError::Check { archive_path: entry.archive_path.clone(), error: e }),
            };
        }
        let data = match self.tally.restore_entry(entry, stored) {
            Ok(data) => data,
            Err(e) => return Err(e),
        };
        self.done = Ghost(before.push((*entry, true)));
        proof {
            assert(self.done@.drop_last() =~= before);
            lemma_count_written_le(before);
            assert forall|i: int| 0 <= i < self.done@.len() && !self.skip_existing_files implies (#[trigger] self.done@[i]).1 by {
                if i < before.len() {
                    assert(self.done@[i] == before[i]);
                }
            }
        }
        Ok(data)
    }

    /// The counts of a restore: every entry handled was written or skipped, the bytes
    /// are the sizes of those written, and nothing is skipped unless skipping is on.
    pub fn finish(self) -> (r: RestoreTally)
        requires
            self.wf(),
        ensures
            r.restored_files + r.skipped_existing_files == self.done().len(),
            r.restored_files == count_written(self.done()),
            r.restored_bytes == written_bytes(self.done()),
            !self.skips() ==> r.skipped_existing_files == 0,
    {
        proof {
            lemma_count_written_le(self.done@);
            if !self.skip_existing_files {
                lemma_all_written(self.done@);
            }
        }
        self.tally
    }
}

proof fn lemma_all_written(done: Seq<(ArchivedFileEntry, bool)>)
    requires
        forall|i: int| 0 <= i < done.len() ==> (#[trigger] done[i]).1,
    ensures
        count_written(done) == done.len(),
    decreases done.len(),
{
    if done.len() > 0 {
        let d = done.drop_last();
        assert forall|i: int| 0 <= i < d.len() implies (#[trigger] d[i]).1 by {
            assert(d[i] == done[i]);
        }
        lemma_all_written(d);
        assert(done[done.len() - 1].1);
    }
}

/// The counts verification keeps as it goes.
#[derive(Debug, Clone, Copy)]
pub struct VerifyTally {
    pub verified_files: usize,
    pub verified_bytes: u64,
}

impl VerifyTally {
    pub fn new() -> (r: Self)
        ensures
            r.verified_files == 0,
            r.verified_bytes == 0,
    {
        VerifyTally { verified_files: 0, verified_bytes: 0 }
    }

    /// Checks an entry's stored bytes; on success counts the file and its bytes.
    pub fn verify_entry(&mut self, entry: &ArchivedFileEntry, stored: &[u8]) -> (r: Result<(), EntryCheckError>)
        requires
            old(self).verified_files < usize::MAX,
            old(self).verified_bytes + entry.original_size <= u64::MAX,
        ensures
            match crate::archive::spec_check_entry(*entry, stored@) {
                Ok(d) => r is Ok && final(self).verified_files == old(self).verified_files + 1
                    && final(self).verified_bytes == old(self).verified_bytes + d.len(),
                Err(e) => r == Err::<(), EntryCheckError>(e) && *final(self) == *old(self),
            },
    {
        match crate::archive::check_entry_payload(entry, stored) {
            Ok(data) => {
                self.verified_files += 1;
                self.verified_bytes += data.len() as u64;
                Ok(())
            },
            Err(e) => Err(e),
        }
    }
}

/// Why an archive as a whole does not verify.
#[derive(Debug, Clone)]
pub enum VerifyRunError {
    /// The archive lists no file.
    NothingToVerify,
    /// An entry's stream does not check.
    Check { archive_path: String, error: EntryCheckError },
    /// The total of the verified bytes does not fit in 64 bits.
    TotalTooLarge,
}

impl VerifyRunError {
    /// The error's message.
    pub fn message(&self) -> (r: String)
        ensures
            r@ == match self {
                VerifyRunError::NothingToVerify => "Archive does not contain any files to verify."@,
                VerifyRunError::Check { archive_path, error } => crate::archive::spec_entry_check_message(*error, "verify"@, archive_path@),
                VerifyRunError::TotalTooLarge => "verified byte total does not fit in 64 bits"@,
            },
    {
        match self {
            VerifyRunError::NothingToVerify => "Archive does not contain any files to verify.".to_string(),
            VerifyRunError::Check { archive_path, error } => error.message("verify", archive_path.as_str()),
            VerifyRunError::TotalTooLarge => "verified byte total does not fit in 64 bits".to_string(),
        }
    }
}

/// A verification in progress: the entries checked so far, in order, and their
/// counts.
pub struct VerifyRun {
    tally: VerifyTally,
    checked: Ghost<Seq<ArchivedFileEntry>>,
}

impl VerifyRun {
    /// The entries checked so far, in order; each one's stream checked out.
    pub closed spec fn checked(self) -> Seq<ArchivedFileEntry> {
        self.checked@
    }

    /// The counts are those of the entries checked. The fields are private, so only
    /// this type's methods keep it.
    pub closed spec fn wf(self) -> bool {
        &&& self.tally.verified_files == self.checked@.len()
        &&& self.tally.verified_bytes == crate::backup::sum_original(self.checked@)
    }

    pub fn new() -> (r: Self)
        ensures
            r.wf(),
            r.checked() == Seq::<ArchivedFileEntry>::empty(),
    {
        VerifyRun { tally: VerifyTally::new(), checked: Ghost(Seq::empty()) }
    }

    /// Checks the next entry against its stored stream. A stream that decodes to the
    /// entry's size and checksum is counted, unless the counts would pass their
    /// limits; otherwise the entry's error is reported and nothing changes.
    pub fn check(&mut self, entry: &ArchivedFileEntry, stored: &[u8]) -> (r: Result<(), VerifyRunError>)
        requires
            old(self).wf(),
        ensures
            final(self).wf(),
            match crate::archive::spec_check_entry(*entry, stored@) {
                Ok(_) => if old(self).checked().len() < usize::MAX && crate::backup::sum_original(old(self).checked().push(*entry))
                    <= u64::MAX {
                    r is Ok && final(self).checked() == old(self).checked().push(*entry)
                } else {
                    r matches Err(VerifyRunError::TotalTooLarge) && final(self).checked() == old(self).checked()
                },
                Err(e) => r matches Err(VerifyRunError::Check { archive_path, error }) && archive_path@ == entry.archive_path@
                    && error == e && final(self).checked() == old(self).checked(),
            },
    {
        let ghost before = self.checked@;
        assert(before.push(*entry).drop_last() =~= before);
        if self.tally.verified_files == usize::MAX || entry.original_size > u64::MAX - self.tally.verified_bytes {
            return match crate::archive::check_entry_payload(entry, stored) {
                Ok(_) => Err(VerifyRunError::TotalTooLarge),
                Err(error) => Err(VerifyRunError::Check { archive_path: entry.archive_path.clone(), error }),
            };
        }
        match self.tally.verify_entry(entry, stored) {
            Ok(()) => {
                self.checked = Ghost(before.push(*entry));
                Ok(())
            },
            Err(error) => Err(VerifyRunError::Check { archive_path: entry.archive_path.clone(), error }),
        }
    }

    /// The counts of a verification: it succeeds where some entry was checked.
    pub fn finish(self) -> (r: Result<VerifyTally, VerifyRunError>)
        requires
            self.wf(),
        ensures
            self.checked().len() == 0 <==> r matches Err(VerifyRunError::NothingToVerify),
            r matches Ok(t) ==> t.verified_files == self.checked().len() && t.verified_bytes == crate::backup::sum_original(
                self.checked(),
            ),
            r is Ok || r matches Err(VerifyRunError::NothingToVerify),
    {
        if self.tally.verified_files == 0 {
            Err(VerifyRunError::NothingToVerify)
        } else {
            Ok(self.tally)
        }
    }
}


} // verus!

verus! {

/// The restore roots a manifest records: its personal-data roots and portable
/// applications under their archive roots, and the archive roots of installed
/// applications, in that order.
pub open spec fn manifest_restore_root_keys(m: ArchiveManifest) -> Seq<Seq<char>> {
    m.selected_user_roots@.map_values(|r: crate::archive::ManifestRoot| crate::backup::spec_user_archive_root(r.category@, r.label@))
        + m.selected_portable_apps@.map_values(
        |a: crate::archive::ManifestPortableApp| crate::backup::spec_portable_archive_root(a.display_name@),
    ) + recorded_backup_roots(m.installed_apps@)
}

/// The archive roots recorded for installed applications, in order.
pub open spec fn recorded_backup_roots(apps: Seq<crate::archive::ManifestInstalledApp>) -> Seq<Seq<char>>
    decreases apps.len(),
{
    if apps.len() == 0 {
        seq![]
    } else {
        recorded_backup_roots(apps.drop_last()) + match apps.last().backup_root {
            Some(r) => seq![r@],
            None => seq![],
        }
    }
}

fn push_new(out: &mut Vec<String>, key: String)
    ensures
        key_views(final(out)@) == if key_views(old(out)@).contains(key@) {
            key_views(old(out)@)
        } else {
            key_views(old(out)@).push(key@)
        },
{
    if !strings_contain(out.as_slice(), key.as_str()) {
        let ghost before = key_views(out@);
        out.push(key);
        assert(key_views(out@) =~= before.push(key@));
    }
}

/// Every restore root the manifest records, each once, in order.
pub fn collect_manifest_restore_roots(manifest: &ArchiveManifest) -> (r: Vec<String>)
    ensures
        key_views(r@) == crate::review::dedupe(manifest_restore_root_keys(*manifest)),
{
    let m = manifest;
    let ghost u = m.selected_user_roots@.map_values(
        |r: crate::archive::ManifestRoot| crate::backup::spec_user_archive_root(r.category@, r.label@),
    );
    let ghost p = m.selected_portable_apps@.map_values(
        |a: crate::archive::ManifestPortableApp| crate::backup::spec_portable_archive_root(a.display_name@),
    );
    let mut out: Vec<String> = Vec::new();
    let mut i: usize = 0;
    while i < m.selected_user_roots.len()
        invariant
            i <= m.selected_user_roots@.len(),
            u == m.selected_user_roots@.map_values(
                |r: crate::archive::ManifestRoot| crate::backup::spec_user_archive_root(r.category@, r.label@),
            ),
            key_views(out@) == crate::review::dedupe(u.take(i as int)),
        decreases m.selected_user_roots@.len() - i,
    {
        let r = &m.selected_user_roots[i];
        push_new(&mut out, crate::backup::user_archive_root(r.category.as_str(), r.label.as_str()));
        assert(u.take(i + 1).drop_last() =~= u.take(i as int));
        i += 1;
    }
    assert(u.take(i as int) =~= u);
    let mut i: usize = 0;
    while i < m.selected_portable_apps.len()
        invariant
            i <= m.selected_portable_apps@.len(),
            p == m.selected_portable_apps@.map_values(
                |a: crate::archive::ManifestPortableApp| crate::backup::spec_portable_archive_root(a.display_name@),
            ),
            key_views(out@) == crate::review::dedupe(u + p.take(i as int)),
        decreases m.selected_portable_apps@.len() - i,
    {
        push_new(&mut out, crate::backup::portable_archive_root(m.selected_portable_apps[i].display_name.as_str()));
        assert((u + p.take(i + 1)).drop_last() =~= u + p.take(i as int));
        assert((u + p.take(i + 1)).last() == p[i as int]);
        i += 1;
    }
    assert(p.take(i as int) =~= p);
    let mut i: usize = 0;
    assert(recorded_backup_roots(m.installed_apps@.take(0)) =~= Seq::<Seq<char>>::empty());
    assert(u + p + Seq::<Seq<char>>::empty() =~= u + p);
    while i < m.installed_apps.len()
        invariant
            i <= m.installed_apps@.len(),
            key_views(out@) == crate::review::dedupe(u + p + recorded_backup_roots(m.installed_apps@.take(i as int))),
        decreases m.installed_apps@.len() - i,
    {
        assert(m.installed_apps@.take(i + 1).drop_last() =~= m.installed_apps@.take(i as int));
        match &m.installed_apps[i].backup_root {
            Some(root) => {
                push_new(&mut out, root.clone());
                assert((u + p + recorded_backup_roots(m.installed_apps@.take(i + 1))).drop_last() =~= u + p
                    + recorded_backup_roots(m.installed_apps@.take(i as int)));
            },
            None => {
                assert(u + p + recorded_backup_roots(m.installed_apps@.take(i + 1)) =~= u + p + recorded_backup_roots(
                    m.installed_apps@.take(i as int),
                ));
            },
        }
        i += 1;
    }
    assert(m.installed_apps@.take(i as int) =~= m.installed_apps@);
    out
}

/// A file found in an archive folder, with the time it was last modified.
#[derive(Debug, Clone)]
pub struct ArchiveFileInfo {
    pub path: String,
    pub modified_secs: u64,
    pub modified_nanos: u32,
}

pub type FoundArchive = (Seq<char>, u64, u32);

/// `a` was modified after `b`.
pub open spec fn newer(a: (u64, u32), b: (u64, u32)) -> bool {
    a.0 > b.0 || (a.0 == b.0 && a.1 > b.1)
}

/// The position of the first archive with the same path, or -1.
pub open spec fn position_of(s: Seq<FoundArchive>, p: Seq<char>, j: int) -> int
    decreases j,
{
    if j <= 0 {
        -1
    } else if position_of(s, p, j - 1) >= 0 {
        position_of(s, p, j - 1)
    } else if crate::winpath::path_eq(s[j - 1].0, p) {
        j - 1
    } else {
        -1
    }
}

/// The `.wrh` files among the first `k`, each path once with its latest time, in the
/// order their paths were first seen.
pub open spec fn merged_archives(found: Seq<ArchiveFileInfo>, k: int) -> Seq<FoundArchive>
    decreases k,
{
    if k <= 0 {
        seq![]
    } else {
        let prev = merged_archives(found, k - 1);
        let f = found[k - 1];
        if crate::winpath::extension(f.path@) != Some("wrh"@) {
            prev
        } else {
            let at = position_of(prev, f.path@, prev.len() as int);
            if at < 0 {
                prev.push((f.path@, f.modified_secs, f.modified_nanos))
            } else if newer((f.modified_secs, f.modified_nanos), (prev[at].1, prev[at].2)) {
                prev.update(at, (prev[at].0, f.modified_secs, f.modified_nanos))
            } else {
                prev
            }
        }
    }
}

pub open spec fn recency_keys(s: Seq<FoundArchive>) -> Seq<crate::order::KeyView> {
    s.map_values(|a: FoundArchive| ((u64::MAX - a.1) as u64, (u64::MAX - a.2) as u64, Seq::<char>::empty()))
}

/// The most recent archives first, at most `limit` of them where `limit` is not zero.
pub open spec fn limited(s: Seq<Seq<char>>, limit: usize) -> Seq<Seq<char>> {
    if limit > 0 && s.len() > limit {
        s.take(limit as int)
    } else {
        s
    }
}

proof fn lemma_position_of(s: Seq<FoundArchive>, p: Seq<char>, j: int)
    requires
        0 <= j <= s.len(),
    ensures
        -1 <= position_of(s, p, j) < j,
        position_of(s, p, j) >= 0 ==> crate::winpath::path_eq(s[position_of(s, p, j)].0, p),
        position_of(s, p, j) < 0 ==> forall|m: int| 0 <= m < j ==> !crate::winpath::path_eq(#[trigger] s[m].0, p),
    decreases j,
{
    if j > 0 {
        lemma_position_of(s, p, j - 1);
    }
}

/// The recent archives among the files found in the archive folders: only `.wrh`
/// files, each path once with its latest modification time, newest first (a stable
/// order), at most `limit` of them where `limit` is not zero.
pub fn rank_recent_archives(found: &[ArchiveFileInfo], limit: usize) -> (r: Vec<String>)
    ensures
        exists|order: Seq<usize>|
            #[trigger] crate::order::is_stable_order(recency_keys(merged_archives(found@, found@.len() as int)), order) && key_views(r@)
                == limited(order.map_values(|i: usize| merged_archives(found@, found@.len() as int)[i as int].0), limit),
{
    let mut paths: Vec<String> = Vec::new();
    let mut secs: Vec<u64> = Vec::new();
    let mut nanos: Vec<u32> = Vec::new();
    let mut k: usize = 0;
    while k < found.len()
        invariant
            k <= found@.len(),
            paths@.len() == secs@.len() == nanos@.len(),
            forall|m: int| 0 <= m < paths@.len() ==> #[trigger] merged_archives(found@, k as int)[m] == (paths@[m]@, secs@[m], nanos@[m]),
            merged_archives(found@, k as int).len() == paths@.len(),
        decreases found@.len() - k,
    {
        let ghost prev = merged_archives(found@, k as int);
        let f = &found[k];
        let fp = chars_of(f.path.as_str());
        let is_wrh = match crate::plan::extension_exec(fp.as_slice()) {
            Some(e) => crate::text::chars_eq_str(e.as_slice(), "wrh"),
            None => false,
        };
        if is_wrh {
            let mut at: usize = 0;
            let mut hit = false;
            while !hit && at < paths.len()
                invariant
                    at <= paths@.len() == prev.len(),
                    forall|m: int| 0 <= m < paths@.len() ==> #[trigger] prev[m] == (paths@[m]@, secs@[m], nanos@[m]),
                    fp@ == f.path@,
                    !hit ==> position_of(prev, f.path@, at as int) < 0,
                    hit ==> at < paths@.len() && position_of(prev, f.path@, prev.len() as int) == at,
                decreases paths@.len() - at - (if hit { 1int } else { 0int }),
            {
                let pc = chars_of(paths[at].as_str());
                assert(prev[at as int].0 == pc@);
                if crate::winpath::path_eq_exec(pc.as_slice(), fp.as_slice()) {
                    hit = true;
                    proof {
                        assert(position_of(prev, f.path@, at + 1) == at);
                        lemma_position_stable(prev, f.path@, at + 1, prev.len() as int);
                    }
                } else {
                    at += 1;
                }
            }
            proof {
                if !hit {
                    assert(at == paths@.len());
                }
            }
            if !hit {
                paths.push(f.path.clone());
                secs.push(f.modified_secs);
                nanos.push(f.modified_nanos);
            } else if f.modified_secs > secs[at] || (f.modified_secs == secs[at] && f.modified_nanos > nanos[at]) {
                secs.set(at, f.modified_secs);
                nanos.set(at, f.modified_nanos);
            }
        }
        k += 1;
    }
    let ghost merged = merged_archives(found@, found@.len() as int);
    let mut keys: Vec<crate::order::SortKey> = Vec::new();
    let mut i: usize = 0;
    while i < paths.len()
        invariant
            i <= paths@.len() == secs@.len() == nanos@.len() == merged.len(),
            forall|m: int| 0 <= m < paths@.len() ==> #[trigger] merged[m] == (paths@[m]@, secs@[m], nanos@[m]),
            crate::order::sort_key_views(keys@) == recency_keys(merged.take(i as int)),
        decreases paths@.len() - i,
    {
        let ghost before = crate::order::sort_key_views(keys@);
        keys.push(crate::order::SortKey { first: u64::MAX - secs[i], second: u64::MAX - (nanos[i] as u64), text: Vec::new() });
        assert(crate::order::sort_key_views(keys@) =~= before.push(((u64::MAX - merged[i as int].1) as u64, (u64::MAX - merged[i as int].2) as u64, Seq::<char>::empty())));
        i += 1;
        assert(merged.take(i as int) =~= merged.take(i - 1).push(merged[i - 1]));
        assert(crate::order::sort_key_views(keys@) =~= recency_keys(merged.take(i as int)));
    }
    assert(merged.take(i as int) =~= merged);
    let order = crate::order::stable_order(keys.as_slice());
    let ghost sorted = order@.map_values(|j: usize| merged[j as int].0);
    let mut out: Vec<String> = Vec::new();
    let mut k: usize = 0;
    while k < order.len()
        invariant
            k <= order@.len() == merged.len() == paths@.len(),
            forall|m: int| 0 <= m < order@.len() ==> order@[m] < merged.len(),
            forall|m: int| 0 <= m < paths@.len() ==> #[trigger] merged[m] == (paths@[m]@, secs@[m], nanos@[m]),
            sorted == order@.map_values(|j: usize| merged[j as int].0),
            key_views(out@) == sorted.take(k as int),
        decreases order@.len() - k,
    {
        let ghost before = key_views(out@);
        out.push(paths[order[k]].clone());
        assert(key_views(out@) =~= before.push(sorted[k as int]));
        k += 1;
        assert(sorted.take(k as int) =~= sorted.take(k - 1).push(sorted[k - 1]));
    }
    assert(sorted.take(k as int) =~= sorted);
    if limit > 0 && out.len() > limit {
        out.truncate(limit);
        assert(key_views(out@) =~= sorted.take(limit as int));
    }
    out
}

proof fn lemma_merged_archives_shape(found: Seq<ArchiveFileInfo>, k: int)
    requires
        0 <= k <= found.len(),
    ensures
        forall|i: int, j: int| 0 <= i < j < merged_archives(found, k).len() ==> !crate::winpath::path_eq(
            (#[trigger] merged_archives(found, k)[i]).0,
            (#[trigger] merged_archives(found, k)[j]).0,
        ),
        forall|i: int| 0 <= i < merged_archives(found, k).len() ==> crate::winpath::extension(
            (#[trigger] merged_archives(found, k)[i]).0,
        ) == Some("wrh"@),
    decreases k,
{
    if k > 0 {
        lemma_merged_archives_shape(found, k - 1);
        let prev = merged_archives(found, k - 1);
        let cur = merged_archives(found, k);
        let f = found[k - 1];
        if crate::winpath::extension(f.path@) == Some("wrh"@) {
            lemma_position_of(prev, f.path@, prev.len() as int);
            let at = position_of(prev, f.path@, prev.len() as int);
            if at < 0 {
                assert(cur == prev.push((f.path@, f.modified_secs, f.modified_nanos)));
                assert forall|i: int, j: int| 0 <= i < j < cur.len() implies !crate::winpath::path_eq(
                    (#[trigger] cur[i]).0,
                    (#[trigger] cur[j]).0,
                ) by {
                    assert(cur[i] == prev[i]);
                    if j < prev.len() {
                        assert(cur[j] == prev[j]);
                    }
                }
                assert forall|i: int| 0 <= i < cur.len() implies crate::winpath::extension((#[trigger] cur[i]).0) == Some("wrh"@) by {
                    if i < prev.len() {
                        assert(cur[i] == prev[i]);
                    }
                }
            } else if newer((f.modified_secs, f.modified_nanos), (prev[at].1, prev[at].2)) {
                assert forall|i: int| 0 <= i < cur.len() implies (#[trigger] cur[i]).0 == prev[i].0 by {}
            }
        }
    }
}

/// The recent archives are `.wrh` files, each path once, newest first: in the list
/// that `rank_recent_archives` gives for `found`, any two entries have different paths
/// and the earlier one was modified no earlier than the later one. `order` is the
/// newest-first order it uses.
pub proof fn law_recent_archives_distinct_newest_first(found: Seq<ArchiveFileInfo>, order: Seq<usize>, limit: usize, a: int, b: int)
    requires
        crate::order::is_stable_order(recency_keys(merged_archives(found, found.len() as int)), order),
        0 <= a < b < limited(order.map_values(|i: usize| merged_archives(found, found.len() as int)[i as int].0), limit).len(),
    ensures
        ({
            let m = merged_archives(found, found.len() as int);
            let r = limited(order.map_values(|i: usize| m[i as int].0), limit);
            &&& r[a] == m[order[a] as int].0 && r[b] == m[order[b] as int].0
            &&& !crate::winpath::path_eq(r[a], r[b])
            &&& crate::winpath::extension(r[a]) == Some("wrh"@)
            &&& !newer((m[order[b] as int].1, m[order[b] as int].2), (m[order[a] as int].1, m[order[a] as int].2))
        }),
{
    let m = merged_archives(found, found.len() as int);
    let all = order.map_values(|i: usize| m[i as int].0);
    let r = limited(all, limit);
    lemma_merged_archives_shape(found, found.len() as int);
    assert(r[a] == all[a] && r[b] == all[b]);
    let x = order[a] as int;
    let y = order[b] as int;
    assert(x < m.len() && y < m.len() && x != y);
    assert(crate::order::ranks_before(recency_keys(m), order[a], order[b]));
    if x < y {
        assert(!crate::winpath::path_eq(m[x].0, m[y].0));
    } else {
        assert(!crate::winpath::path_eq(m[y].0, m[x].0));
    }
}

proof fn lemma_position_stable(s: Seq<FoundArchive>, p: Seq<char>, j: int, m: int)
    requires
        0 <= j <= m,
        position_of(s, p, j) >= 0,
    ensures
        position_of(s, p, m) == position_of(s, p, j),
    decreases m - j,
{
    if m > j {
        lemma_position_stable(s, p, j, m - 1);
    }
}

} // verus!
