//! Safe copies, moves and deletes. A transfer is staged beside its destination, verified,
//! and published by renames, with a journal that names its phase at every step; a delete
//! removes the tree or moves it aside into quarantine. The trees are walked and renamed
//! by the caller; these functions hold what the walk counts, what each phase leads to,
//! what a restart does with a journal left behind, and which quarantined trees go.

use vstd::prelude::*;
use crate::error::{RuntimeError, RuntimeResult};
use crate::text::{chars_of, concat_str, ends_with_seq, ends_with_str, starts_with_seq, starts_with_str, str_eq};
use crate::workspace::{path_within, within};

verus! {

pub const MAX_MUTATION_TIMEOUT_MS: u64 = 1800000;
pub const MAX_MUTATION_FILES: u64 = 2000000;
pub const MAX_MUTATION_BYTES: u64 = 2199023255552;
pub const MAX_MUTATION_OPEN_FILES: u64 = 64;

/// Limits of a copy, move or delete.
#[derive(Debug, Clone, Copy, PartialEq, Eq, Structural)]
pub struct FsMutationBudget {
    pub timeout_ms: u64,
    pub max_files: u64,
    pub max_bytes_read: u64,
    pub max_bytes_written: u64,
    pub max_open_files: u64,
}

/// What a transfer does when its destination exists.
#[derive(Debug, Clone, Copy, PartialEq, Eq, Structural)]
pub enum FsConflictPolicy {
    Error,
    Replace,
    Skip,
}

/// How a staged copy is checked against its source.
#[derive(Debug, Clone, Copy, PartialEq, Eq, Structural)]
pub enum FsVerifyMode {
    /// No check (`none` on the wire).
    Off,
    Metadata,
    Content,
}

/// How a delete removes a tree.
#[derive(Debug, Clone, Copy, PartialEq, Eq, Structural)]
pub enum FsDeleteMode {
    Permanent,
    Quarantine,
}

/// What a mutation walked or copied.
#[derive(Debug, Clone, Copy, PartialEq, Eq, Structural)]
pub struct MutationCounts {
    pub files: u64,
    pub directories: u64,
    pub bytes: u64,
}

/// What a mutation reports.
#[derive(Debug, Clone)]
pub struct FsMutationResult {
    pub operation_id: String,
    pub state: String,
    pub files_processed: u64,
    pub directories_processed: u64,
    pub bytes_copied: u64,
    pub source_removed: bool,
    pub destination_published: bool,
    pub verified: bool,
    pub rollback_attempted: bool,
    pub rollback_completed: bool,
    pub dry_run: bool,
    pub warnings: Vec<String>,
    pub detail_artifact_ref: Option<String>,
}

pub open spec fn min_u64(a: u64, b: u64) -> u64 {
    if a < b { a } else { b }
}

/// The budget a mutation runs under: the caller's, capped at thirty minutes, two million
/// entries, two TiB read and written, and between one and sixty-four open files.
pub open spec fn effective_budget_spec(b: FsMutationBudget) -> FsMutationBudget {
    FsMutationBudget {
        timeout_ms: min_u64(b.timeout_ms, MAX_MUTATION_TIMEOUT_MS),
        max_files: min_u64(b.max_files, MAX_MUTATION_FILES),
        max_bytes_read: min_u64(b.max_bytes_read, MAX_MUTATION_BYTES),
        max_bytes_written: min_u64(b.max_bytes_written, MAX_MUTATION_BYTES),
        max_open_files: if b.max_open_files < 1 { 1 } else { min_u64(b.max_open_files, MAX_MUTATION_OPEN_FILES) },
    }
}

/// Caps the caller's budget.
pub fn effective_mutation_budget(b: FsMutationBudget) -> (r: FsMutationBudget)
    ensures
        r == effective_budget_spec(b),
{
    FsMutationBudget {
        timeout_ms: if b.timeout_ms < MAX_MUTATION_TIMEOUT_MS { b.timeout_ms } else { MAX_MUTATION_TIMEOUT_MS },
        max_files: if b.max_files < MAX_MUTATION_FILES { b.max_files } else { MAX_MUTATION_FILES },
        max_bytes_read: if b.max_bytes_read < MAX_MUTATION_BYTES { b.max_bytes_read } else { MAX_MUTATION_BYTES },
        max_bytes_written: if b.max_bytes_written < MAX_MUTATION_BYTES { b.max_bytes_written } else { MAX_MUTATION_BYTES },
        max_open_files: if b.max_open_files < 1 {
            1
        } else if b.max_open_files < MAX_MUTATION_OPEN_FILES {
            b.max_open_files
        } else {
            MAX_MUTATION_OPEN_FILES
        },
    }
}

/// A copy or move needs two open files and does not follow symbolic links.
pub fn check_transfer_options(budget: &FsMutationBudget, follow_symlinks: bool) -> (r: RuntimeResult<()>)
    ensures
        budget.max_open_files < 2 ==> (r matches Err(e) && e.code@ == "openFileBudgetExceeded"@),
        budget.max_open_files >= 2 && follow_symlinks ==> (r matches Err(e) && e.code@ == "unsupported_symlink_policy"@),
        budget.max_open_files >= 2 && !follow_symlinks ==> r is Ok,
{
    if budget.max_open_files < 2 {
        return Err(RuntimeError::new("openFileBudgetExceeded", "copy/move requires at least two open-file slots"));
    }
    if follow_symlinks {
        return Err(RuntimeError::new("unsupported_symlink_policy", "followSymlinks=true is not supported for safe mutations"));
    }
    Ok(())
}

/// `p` is one of the scopes.
pub open spec fn is_scope(scopes: Seq<String>, p: Seq<char>) -> bool {
    exists|i: int| 0 <= i < scopes.len() && (#[trigger] scopes[i])@ == p
}

/// A workspace root or granted scope is never moved (`moving`) or deleted.
pub fn reject_scope_root(scopes: &Vec<String>, path: &str, moving: bool) -> (r: RuntimeResult<()>)
    ensures
        r is Ok <==> !is_scope(scopes@, path@),
        r matches Err(e) ==> e.code@ == "root_path_rejected"@,
{
    let mut i: usize = 0;
    while i < scopes.len()
        invariant
            i <= scopes@.len(),
            forall|k: int| 0 <= k < i ==> (#[trigger] scopes@[k])@ != path@,
        decreases scopes.len() - i,
    {
        if str_eq(scopes[i].as_str(), path) {
            return Err(if moving {
                RuntimeError::new("root_path_rejected", "workspace and explicit grant roots cannot be moved")
            } else {
                RuntimeError::new("root_path_rejected", "workspace and explicit grant roots cannot be deleted")
            });
        }
        i = i + 1;
    }
    Ok(())
}

/// A transfer's source and destination must not contain one another.
pub fn reject_overlapping_transfer(source: &str, destination: &str) -> (r: RuntimeResult<()>)
    ensures
        r is Ok <==> !(path_within(destination@, source@) || path_within(source@, destination@)),
        r matches Err(e) ==> e.code@ == "overlapping_transfer"@,
{
    if within(destination, source) || within(source, destination) {
        return Err(RuntimeError::new("overlapping_transfer", "source and destination must not contain one another"));
    }
    Ok(())
}

/// A destination version can only be expected of a destination that exists.
pub fn check_expected_destination(expected_version_given: bool, destination_exists: bool) -> (r: RuntimeResult<()>)
    ensures
        r is Ok <==> (!expected_version_given || destination_exists),
        r matches Err(e) ==> e.code@ == "targetMissing"@,
{
    if expected_version_given && !destination_exists {
        return Err(RuntimeError::new("targetMissing", "expectedDestinationVersion requires an existing destination"));
    }
    Ok(())
}

/// An existing destination is an error under the `Error` policy.
pub fn check_conflict(destination_exists: bool, policy: FsConflictPolicy) -> (r: RuntimeResult<()>)
    ensures
        r is Ok <==> !(destination_exists && policy == FsConflictPolicy::Error),
        r matches Err(e) ==> e.code@ == "already_exists"@,
{
    if destination_exists && policy == FsConflictPolicy::Error {
        return Err(RuntimeError::new("already_exists", "destination exists and conflictPolicy is error"));
    }
    Ok(())
}

/// What the walk of a tree meets.
#[derive(Debug, Clone, Copy, PartialEq, Eq, Structural)]
pub enum EntryKind {
    Directory,
    File,
    Other,
}

/// The counts stay within the budget.
pub open spec fn within_budget(c: MutationCounts, b: FsMutationBudget) -> bool {
    &&& sat_add(c.files, c.directories) <= b.max_files
    &&& c.bytes <= b.max_bytes_read
    &&& c.bytes <= b.max_bytes_written
}

pub open spec fn sat_add(a: u64, b: u64) -> u64 {
    if a + b > u64::MAX { u64::MAX } else { (a + b) as u64 }
}

impl MutationCounts {
    /// Nothing counted yet.
    pub fn zero() -> (c: Self)
        ensures
            c == (MutationCounts { files: 0, directories: 0, bytes: 0 }),
    {
        MutationCounts { files: 0, directories: 0, bytes: 0 }
    }

    /// Counts an entry met by the walk that plans a mutation: a directory, or a file of
    /// `len` bytes; anything else cannot be mutated. The walk stops when the counts pass
    /// the budget.
    pub fn count_scanned(&mut self, kind: EntryKind, len: u64, budget: &FsMutationBudget) -> (r: RuntimeResult<()>)
        ensures
            kind == EntryKind::Other ==> (r matches Err(e) && e.code@ == "unsupported_file_type"@ && *final(self) == *old(self)),
            kind != EntryKind::Other ==> {
                let c = if kind == EntryKind::Directory {
                    MutationCounts { directories: sat_add(old(self).directories, 1), ..*old(self) }
                } else {
                    MutationCounts { files: sat_add(old(self).files, 1), bytes: sat_add(old(self).bytes, len), ..*old(self) }
                };
                &&& *final(self) == c
                &&& (r is Ok <==> within_budget(c, *budget))
                &&& r matches Err(e) ==> e.code@ == "budget_exceeded"@
            },
    {
        match kind {
            EntryKind::Directory => {
                self.directories = self.directories.saturating_add(1);
            },
            EntryKind::File => {
                self.files = self.files.saturating_add(1);
                self.bytes = self.bytes.saturating_add(len);
            },
            EntryKind::Other => {
                return Err(RuntimeError::new("unsupported_file_type", "mutation source contains an unsupported file type"));
            },
        }
        if self.files.saturating_add(self.directories) > budget.max_files {
            return Err(RuntimeError::new("budget_exceeded", "preflight exceeded maxFiles"));
        }
        if self.bytes > budget.max_bytes_read || self.bytes > budget.max_bytes_written {
            return Err(RuntimeError::new("budget_exceeded", "preflight exceeded byte budget"));
        }
        Ok(())
    }

    /// Counts a directory created in the staged copy.
    pub fn count_directory_copied(&mut self, budget: &FsMutationBudget) -> (r: RuntimeResult<()>)
        ensures
            *final(self) == (MutationCounts { directories: sat_add(old(self).directories, 1), ..*old(self) }),
            r is Ok <==> sat_add(final(self).files, final(self).directories) <= budget.max_files,
            r matches Err(e) ==> e.code@ == "budget_exceeded"@,
    {
        self.directories = self.directories.saturating_add(1);
        if self.files.saturating_add(self.directories) > budget.max_files {
            return Err(RuntimeError::new("budget_exceeded", "copy exceeded maxFiles"));
        }
        Ok(())
    }

    /// Counts `n` bytes copied into the staged copy.
    pub fn count_bytes_copied(&mut self, n: u64, budget: &FsMutationBudget) -> (r: RuntimeResult<()>)
        ensures
            *final(self) == (MutationCounts { bytes: sat_add(old(self).bytes, n), ..*old(self) }),
            r is Ok <==> (final(self).bytes <= budget.max_bytes_read && final(self).bytes <= budget.max_bytes_written),
            r matches Err(e) ==> e.code@ == "budget_exceeded"@,
    {
        self.bytes = self.bytes.saturating_add(n);
        if self.bytes > budget.max_bytes_read || self.bytes > budget.max_bytes_written {
            return Err(RuntimeError::new("budget_exceeded", "copy exceeded byte budget"));
        }
        Ok(())
    }

    /// Counts a file whose copy completed.
    pub fn count_file_copied(&mut self, budget: &FsMutationBudget) -> (r: RuntimeResult<()>)
        ensures
            *final(self) == (MutationCounts { files: sat_add(old(self).files, 1), ..*old(self) }),
            r is Ok <==> sat_add(final(self).files, final(self).directories) <= budget.max_files,
            r matches Err(e) ==> e.code@ == "budget_exceeded"@,
    {
        self.files = self.files.saturating_add(1);
        if self.files.saturating_add(self.directories) > budget.max_files {
            return Err(RuntimeError::new("budget_exceeded", "copy exceeded maxFiles"));
        }
        Ok(())
    }
}

/// The result of a mutation that has not changed anything yet.
pub fn empty_mutation_result(operation_id: &str, dry_run: bool) -> (r: FsMutationResult)
    ensures
        r.operation_id@ == operation_id@,
        r.state@ == "completed"@,
        r.files_processed == 0,
        r.directories_processed == 0,
        r.bytes_copied == 0,
        !r.source_removed,
        !r.destination_published,
        !r.verified,
        !r.rollback_attempted,
        !r.rollback_completed,
        r.dry_run == dry_run,
        r.warnings@.len() == 0,
        r.detail_artifact_ref is None,
{
    FsMutationResult {
        operation_id: operation_id.to_owned(),
        state: "completed".to_owned(),
        files_processed: 0,
        directories_processed: 0,
        bytes_copied: 0,
        source_removed: false,
        destination_published: false,
        verified: false,
        rollback_attempted: false,
        rollback_completed: false,
        dry_run,
        warnings: Vec::new(),
        detail_artifact_ref: None,
    }
}

/// The state a failed mutation reports: cancelled or failed, rolled back or partial.
pub open spec fn failed_state(cancelled: bool, rollback_completed: bool) -> Seq<char> {
    if cancelled {
        if rollback_completed { "cancelledRolledBack"@ } else { "cancelledPartial"@ }
    } else if rollback_completed {
        "failedRolledBack"@
    } else {
        "failedPartial"@
    }
}

/// The result of a mutation that failed with `error` (described as `error_text`) after
/// copying `counts`; its rollback was attempted and completed or not.
pub fn failed_result(
    operation_id: &str,
    counts: MutationCounts,
    published: bool,
    rollback_completed: bool,
    error: &RuntimeError,
    error_text: &str,
) -> (r: FsMutationResult)
    ensures
        r.operation_id@ == operation_id@,
        r.state@ == failed_state(error.code@ == "cancelled"@, rollback_completed),
        r.files_processed == counts.files,
        r.directories_processed == counts.directories,
        r.bytes_copied == counts.bytes,
        !r.source_removed,
        r.destination_published == published,
        !r.verified,
        r.rollback_attempted,
        r.rollback_completed == rollback_completed,
        !r.dry_run,
        r.warnings@.len() == 1 && r.warnings@[0]@ == error_text@,
        r.detail_artifact_ref is None,
{
    let cancelled = str_eq(error.code.as_str(), "cancelled");
    let state = if cancelled {
        if rollback_completed { "cancelledRolledBack" } else { "cancelledPartial" }
    } else if rollback_completed {
        "failedRolledBack"
    } else {
        "failedPartial"
    };
    let mut warnings: Vec<String> = Vec::new();
    warnings.push(error_text.to_owned());
    FsMutationResult {
        operation_id: operation_id.to_owned(),
        state: state.to_owned(),
        files_processed: counts.files,
        directories_processed: counts.directories,
        bytes_copied: counts.bytes,
        source_removed: false,
        destination_published: published,
        verified: false,
        rollback_attempted: true,
        rollback_completed,
        dry_run: false,
        warnings,
        detail_artifact_ref: None,
    }
}

/// The result of a planning walk that was cancelled before anything changed.
pub fn cancelled_no_change(operation_id: &str, dry_run: bool) -> (r: FsMutationResult)
    ensures
        r.operation_id@ == operation_id@,
        r.state@ == "cancelledNoChange"@,
        r.dry_run == dry_run,
        r.files_processed == 0 && r.directories_processed == 0 && r.bytes_copied == 0,
        !r.source_removed && !r.destination_published && !r.rollback_attempted,
        r.warnings@.len() == 0,
{
    let mut r = empty_mutation_result(operation_id, dry_run);
    r.state = "cancelledNoChange".to_owned();
    r
}

/// What a transfer reports after its planning walk counted `counts`: when it is a dry
/// run it is only planned; when the destination exists and the policy skips it, it is
/// skipped; else it goes on (`finished` false) and its result is still to come. A request
/// without atomic publish is warned that publishing is staged anyway.
pub fn transfer_after_preflight(
    operation_id: &str,
    dry_run: bool,
    atomic_publish: bool,
    destination_exists: bool,
    policy: FsConflictPolicy,
    counts: MutationCounts,
) -> (r: (FsMutationResult, bool))
    ensures
        r.0.operation_id@ == operation_id@,
        r.0.dry_run == dry_run,
        r.0.files_processed == counts.files,
        r.0.directories_processed == counts.directories,
        !r.0.source_removed && !r.0.destination_published && !r.0.rollback_attempted,
        r.0.warnings@.len() == (if atomic_publish { 0int } else { 1int }),
        !atomic_publish ==> r.0.warnings@[0]@ == "atomicPublish=false was requested; the safety implementation still uses staged publish"@,
        r.1 == (dry_run || (destination_exists && policy == FsConflictPolicy::Skip)),
        dry_run ==> r.0.state@ == "planned"@ && r.0.bytes_copied == 0,
        !dry_run && destination_exists && policy == FsConflictPolicy::Skip ==> r.0.state@ == "skipped"@ && r.0.bytes_copied == 0,
        !r.1 ==> r.0.bytes_copied == counts.bytes,
{
    let mut result = empty_mutation_result(operation_id, dry_run);
    result.files_processed = counts.files;
    result.directories_processed = counts.directories;
    result.bytes_copied = counts.bytes;
    if !atomic_publish {
        result.warnings.push("atomicPublish=false was requested; the safety implementation still uses staged publish".to_owned());
    }
    if dry_run {
        result.state = "planned".to_owned();
        result.bytes_copied = 0;
        return (result, true);
    }
    if destination_exists && policy == FsConflictPolicy::Skip {
        result.state = "skipped".to_owned();
        result.bytes_copied = 0;
        return (result, true);
    }
    (result, false)
}

/// The phase a mutation's journal names.
#[derive(Debug, Clone, Copy, PartialEq, Eq, Structural)]
pub enum MutationPhase {
    Planned,
    Staging,
    Verifying,
    ReadyToPublish,
    BackingUpDestination,
    DestinationBackedUp,
    Publishing,
    Published,
    RemovingSource,
    Completed,
    CompletedWithSourceRemaining,
    FailedRolledBack,
    FailedPartial,
    CancelledRolledBack,
    CancelledPartial,
    Quarantining,
    Deleting,
}

/// The name a journal gives the phase.
pub open spec fn phase_text(p: MutationPhase) -> Seq<char> {
    match p {
        MutationPhase::Planned => "planned"@,
        MutationPhase::Staging => "staging"@,
        MutationPhase::Verifying => "verifying"@,
        MutationPhase::ReadyToPublish => "readyToPublish"@,
        MutationPhase::BackingUpDestination => "backingUpDestination"@,
        MutationPhase::DestinationBackedUp => "destinationBackedUp"@,
        MutationPhase::Publishing => "publishing"@,
        MutationPhase::Published => "published"@,
        MutationPhase::RemovingSource => "removingSource"@,
        MutationPhase::Completed => "completed"@,
        MutationPhase::CompletedWithSourceRemaining => "completedWithSourceRemaining"@,
        MutationPhase::FailedRolledBack => "failedRolledBack"@,
        MutationPhase::FailedPartial => "failedPartial"@,
        MutationPhase::CancelledRolledBack => "cancelledRolledBack"@,
        MutationPhase::CancelledPartial => "cancelledPartial"@,
        MutationPhase::Quarantining => "quarantining"@,
        MutationPhase::Deleting => "deleting"@,
    }
}

/// Names the phase.
pub fn phase_name(p: MutationPhase) -> (r: String)
    ensures
        r@ == phase_text(p),
{
    match p {
        MutationPhase::Planned => "planned".to_owned(),
        MutationPhase::Staging => "staging".to_owned(),
        MutationPhase::Verifying => "verifying".to_owned(),
        MutationPhase::ReadyToPublish => "readyToPublish".to_owned(),
        MutationPhase::BackingUpDestination => "backingUpDestination".to_owned(),
        MutationPhase::DestinationBackedUp => "destinationBackedUp".to_owned(),
        MutationPhase::Publishing => "publishing".to_owned(),
        MutationPhase::Published => "published".to_owned(),
        MutationPhase::RemovingSource => "removingSource".to_owned(),
        MutationPhase::Completed => "completed".to_owned(),
        MutationPhase::CompletedWithSourceRemaining => "completedWithSourceRemaining".to_owned(),
        MutationPhase::FailedRolledBack => "failedRolledBack".to_owned(),
        MutationPhase::FailedPartial => "failedPartial".to_owned(),
        MutationPhase::CancelledRolledBack => "cancelledRolledBack".to_owned(),
        MutationPhase::CancelledPartial => "cancelledPartial".to_owned(),
        MutationPhase::Quarantining => "quarantining".to_owned(),
        MutationPhase::Deleting => "deleting".to_owned(),
    }
}

/// A transfer on its way from its staged copy to its published destination.
#[derive(Debug)]
pub struct TransferRun {
    pub operation_id: String,
    pub remove_source: bool,
    pub verify: FsVerifyMode,
    pub phase: MutationPhase,
    pub counts: MutationCounts,
    pub backup_created: bool,
    pub warnings: Vec<String>,
}

/// The phases before the staged copy is published, in which a failure rolls back.
pub open spec fn before_publish(p: MutationPhase) -> bool {
    p == MutationPhase::Staging || p == MutationPhase::Verifying || p == MutationPhase::ReadyToPublish
}

impl TransferRun {
    /// A planned transfer, with the warnings its planning gave.
    pub fn new(operation_id: &str, remove_source: bool, verify: FsVerifyMode, warnings: Vec<String>) -> (t: Self)
        ensures
            t.operation_id@ == operation_id@,
            t.remove_source == remove_source,
            t.verify == verify,
            t.phase == MutationPhase::Planned,
            t.counts == (MutationCounts { files: 0, directories: 0, bytes: 0 }),
            !t.backup_created,
            t.warnings@ == warnings@,
    {
        TransferRun {
            operation_id: operation_id.to_owned(),
            remove_source,
            verify,
            phase: MutationPhase::Planned,
            counts: MutationCounts::zero(),
            backup_created: false,
            warnings,
        }
    }

    /// The copy into the staging path begins.
    pub fn begin_staging(&mut self)
        requires
            old(self).phase == MutationPhase::Planned,
        ensures
            *final(self) == (TransferRun { phase: MutationPhase::Staging, ..*old(self) }),
    {
        self.phase = MutationPhase::Staging;
    }

    /// The staged copy holds `counts`; it is verified next.
    pub fn staged(&mut self, counts: MutationCounts)
        requires
            old(self).phase == MutationPhase::Staging,
        ensures
            *final(self) == (TransferRun { phase: MutationPhase::Verifying, counts, ..*old(self) }),
    {
        self.phase = MutationPhase::Verifying;
        self.counts = counts;
    }

    /// The staged copy matches its source; it may be published.
    pub fn verified(&mut self)
        requires
            old(self).phase == MutationPhase::Verifying,
        ensures
            *final(self) == (TransferRun { phase: MutationPhase::ReadyToPublish, ..*old(self) }),
    {
        self.phase = MutationPhase::ReadyToPublish;
    }

    /// A step before publishing failed with `error` after `counts` were copied, and the
    /// staged copy was removed (`rolled_back`) or not. A failed last checkpoint before
    /// publishing (`at_checkpoint`) is journaled as cancelled.
    pub fn fail_before_publish(
        &mut self,
        counts: MutationCounts,
        at_checkpoint: bool,
        rolled_back: bool,
        error: &RuntimeError,
        error_text: &str,
    ) -> (r: FsMutationResult)
        requires
            before_publish(old(self).phase),
        ensures
            final(self).phase == (if at_checkpoint {
                if rolled_back { MutationPhase::CancelledRolledBack } else { MutationPhase::CancelledPartial }
            } else if rolled_back {
                MutationPhase::FailedRolledBack
            } else {
                MutationPhase::FailedPartial
            }),
            final(self).counts == old(self).counts,
            r.operation_id@ == old(self).operation_id@,
            r.state@ == failed_state(error.code@ == "cancelled"@, rolled_back),
            !r.destination_published && !r.source_removed && r.rollback_attempted,
            r.rollback_completed == rolled_back,
            r.files_processed == counts.files && r.directories_processed == counts.directories && r.bytes_copied == counts.bytes,
            r.warnings@.len() == 1 && r.warnings@[0]@ == error_text@,
    {
        self.phase = if at_checkpoint {
            if rolled_back { MutationPhase::CancelledRolledBack } else { MutationPhase::CancelledPartial }
        } else if rolled_back {
            MutationPhase::FailedRolledBack
        } else {
            MutationPhase::FailedPartial
        };
        failed_result(self.operation_id.as_str(), counts, false, rolled_back, error, error_text)
    }

    /// The existing destination is about to be renamed to the backup path.
    pub fn back_up_destination(&mut self)
        requires
            old(self).phase == MutationPhase::ReadyToPublish,
        ensures
            *final(self) == (TransferRun { phase: MutationPhase::BackingUpDestination, backup_created: true, ..*old(self) }),
    {
        self.phase = MutationPhase::BackingUpDestination;
        self.backup_created = true;
    }

    /// The old destination is at the backup path.
    pub fn destination_backed_up(&mut self)
        requires
            old(self).phase == MutationPhase::BackingUpDestination,
        ensures
            *final(self) == (TransferRun { phase: MutationPhase::DestinationBackedUp, ..*old(self) }),
    {
        self.phase = MutationPhase::DestinationBackedUp;
    }

    /// The staged copy is about to be renamed to the destination.
    pub fn publishing(&mut self)
        requires
            old(self).phase == MutationPhase::ReadyToPublish || old(self).phase == MutationPhase::DestinationBackedUp,
        ensures
            *final(self) == (TransferRun { phase: MutationPhase::Publishing, ..*old(self) }),
    {
        self.phase = MutationPhase::Publishing;
    }

    /// Publishing failed: the rollback removes the staged copy and puts a backed-up
    /// destination back; it completed when both that were needed succeeded.
    pub fn publish_failed(&mut self, stage_removed: bool, backup_restored: bool, error: &RuntimeError, error_text: &str) -> (r: FsMutationResult)
        requires
            old(self).phase == MutationPhase::Publishing,
        ensures
            final(self).phase == (if stage_removed && (!old(self).backup_created || backup_restored) {
                MutationPhase::FailedRolledBack
            } else {
                MutationPhase::FailedPartial
            }),
            r.state@ == failed_state(error.code@ == "cancelled"@, stage_removed && (!old(self).backup_created || backup_restored)),
            r.rollback_completed == (stage_removed && (!old(self).backup_created || backup_restored)),
            !r.destination_published && !r.source_removed && r.rollback_attempted,
            r.files_processed == old(self).counts.files && r.bytes_copied == old(self).counts.bytes,
            r.warnings@.len() == 1 && r.warnings@[0]@ == error_text@,
    {
        let rollback = stage_removed && (!self.backup_created || backup_restored);
        self.phase = if rollback { MutationPhase::FailedRolledBack } else { MutationPhase::FailedPartial };
        failed_result(self.operation_id.as_str(), self.counts, false, rollback, error, error_text)
    }

    /// The staged copy is the destination now.
    pub fn published(&mut self)
        requires
            old(self).phase == MutationPhase::Publishing,
        ensures
            *final(self) == (TransferRun { phase: MutationPhase::Published, ..*old(self) }),
    {
        self.phase = MutationPhase::Published;
    }

    /// The old destination's backup could not be removed.
    pub fn backup_left_behind(&mut self, backup_path: &str)
        requires
            old(self).phase == MutationPhase::Published,
            old(self).backup_created,
        ensures
            final(self).phase == old(self).phase,
            final(self).counts == old(self).counts,
            final(self).remove_source == old(self).remove_source,
            final(self).verify == old(self).verify,
            final(self).operation_id == old(self).operation_id,
            final(self).warnings@.len() == old(self).warnings@.len() + 1,
            final(self).warnings@.drop_last() == old(self).warnings@,
            final(self).warnings@.last()@ == "old destination backup remains at "@ + backup_path@,
    {
        let w = concat_str("old destination backup remains at ", backup_path);
        self.warnings.push(w);
        assert(self.warnings@.drop_last() =~= old(self).warnings@);
    }

    /// A move removes its source once the destination is published.
    pub fn removing_source(&mut self)
        requires
            old(self).phase == MutationPhase::Published,
            old(self).remove_source,
        ensures
            *final(self) == (TransferRun { phase: MutationPhase::RemovingSource, ..*old(self) }),
    {
        self.phase = MutationPhase::RemovingSource;
    }

    /// The transfer is over: published, and for a move with its source removed or not.
    pub fn finish(&mut self, source_removed: bool) -> (r: FsMutationResult)
        requires
            (old(self).phase == MutationPhase::Published && !old(self).remove_source)
                || old(self).phase == MutationPhase::RemovingSource,
        ensures
            r.operation_id@ == old(self).operation_id@,
            r.source_removed == (old(self).remove_source && source_removed),
            r.state@ == (if old(self).remove_source && !source_removed { "completedWithSourceRemaining"@ } else { "completed"@ }),
            phase_text(final(self).phase) == r.state@,
            r.destination_published,
            r.verified == (old(self).verify != FsVerifyMode::Off),
            !r.rollback_attempted && !r.rollback_completed && !r.dry_run,
            r.files_processed == old(self).counts.files,
            r.directories_processed == old(self).counts.directories,
            r.bytes_copied == old(self).counts.bytes,
            r.warnings@ == final(self).warnings@,
            (old(self).remove_source && !source_removed) ==> final(self).warnings@.len() == old(self).warnings@.len() + 1
                && final(self).warnings@.drop_last() == old(self).warnings@
                && final(self).warnings@.last()@ == "destination published but source cleanup failed"@,
            !(old(self).remove_source && !source_removed) ==> final(self).warnings@ == old(self).warnings@,
    {
        let removed = self.remove_source && source_removed;
        let remaining = self.remove_source && !source_removed;
        if remaining {
            self.warnings.push("destination published but source cleanup failed".to_owned());
            assert(self.warnings@.drop_last() =~= old(self).warnings@);
            self.phase = MutationPhase::CompletedWithSourceRemaining;
        } else {
            self.phase = MutationPhase::Completed;
        }
        let mut warnings: Vec<String> = Vec::new();
        let mut i: usize = 0;
        while i < self.warnings.len()
            invariant
                i <= self.warnings@.len(),
                warnings@ == self.warnings@.subrange(0, i as int),
            decreases self.warnings.len() - i,
        {
            warnings.push(self.warnings[i].clone());
            i = i + 1;
            assert(warnings@ =~= self.warnings@.subrange(0, i as int));
        }
        assert(self.warnings@.subrange(0, self.warnings@.len() as int) =~= self.warnings@);
        FsMutationResult {
            operation_id: self.operation_id.clone(),
            state: if remaining { "completedWithSourceRemaining".to_owned() } else { "completed".to_owned() },
            files_processed: self.counts.files,
            directories_processed: self.counts.directories,
            bytes_copied: self.counts.bytes,
            source_removed: removed,
            destination_published: true,
            verified: self.verify != FsVerifyMode::Off,
            rollback_attempted: false,
            rollback_completed: false,
            dry_run: false,
            warnings,
            detail_artifact_ref: None,
        }
    }
}

/// A non-recursive delete of a directory needs it to be empty.
pub fn check_delete_target(is_directory: bool, recursive: bool, has_entries: bool) -> (r: RuntimeResult<()>)
    ensures
        r is Ok <==> !(is_directory && !recursive && has_entries),
        r matches Err(e) ==> e.code@ == "directory_not_empty"@,
{
    if is_directory && !recursive && has_entries {
        return Err(RuntimeError::new("directory_not_empty", "recursive=true is required for a non-empty directory"));
    }
    Ok(())
}

/// What a delete reports after its planning walk: a dry run is only planned.
pub fn delete_after_preflight(operation_id: &str, dry_run: bool, counts: MutationCounts) -> (r: (FsMutationResult, bool))
    ensures
        r.0.operation_id@ == operation_id@,
        r.0.dry_run == dry_run,
        r.0.files_processed == counts.files,
        r.0.directories_processed == counts.directories,
        r.0.bytes_copied == 0,
        r.1 == dry_run,
        r.0.state@ == (if dry_run { "planned"@ } else { "completed"@ }),
        !r.0.source_removed && !r.0.destination_published,
        r.0.warnings@.len() == 0,
{
    let mut result = empty_mutation_result(operation_id, dry_run);
    result.files_processed = counts.files;
    result.directories_processed = counts.directories;
    if dry_run {
        result.state = "planned".to_owned();
        return (result, true);
    }
    (result, false)
}

/// The phase a delete journals while it removes: moving aside into quarantine, or deleting.
pub fn delete_phase(mode: FsDeleteMode) -> (p: MutationPhase)
    ensures
        p == (if mode == FsDeleteMode::Quarantine { MutationPhase::Quarantining } else { MutationPhase::Deleting }),
{
    match mode {
        FsDeleteMode::Quarantine => MutationPhase::Quarantining,
        FsDeleteMode::Permanent => MutationPhase::Deleting,
    }
}

/// The error of a quarantine that could not move the tree aside.
pub fn quarantine_unavailable(error_text: &str) -> (e: RuntimeError)
    ensures
        e.code@ == "quarantine_unavailable"@,
        e.message@ == "same-filesystem quarantine failed; use explicit permanent mode if intended: "@ + error_text@,
{
    let message = concat_str("same-filesystem quarantine failed; use explicit permanent mode if intended: ", error_text);
    RuntimeError::new("quarantine_unavailable", message.as_str())
}

/// The warning of a delete that kept the data in quarantine.
pub fn quarantine_warning(quarantine_path: &str) -> (w: String)
    ensures
        w@ == "quarantined data retained at "@ + quarantine_path@,
{
    concat_str("quarantined data retained at ", quarantine_path)
}

/// The result of a completed delete.
pub fn delete_result(operation_id: &str, counts: MutationCounts, warnings: Vec<String>) -> (r: FsMutationResult)
    ensures
        r.operation_id@ == operation_id@,
        r.state@ == "completed"@,
        r.files_processed == counts.files,
        r.directories_processed == counts.directories,
        r.bytes_copied == 0,
        r.source_removed,
        !r.destination_published,
        r.verified,
        !r.rollback_attempted && !r.rollback_completed && !r.dry_run,
        r.warnings@ == warnings@,
        r.detail_artifact_ref is None,
{
    FsMutationResult {
        operation_id: operation_id.to_owned(),
        state: "completed".to_owned(),
        files_processed: counts.files,
        directories_processed: counts.directories,
        bytes_copied: 0,
        source_removed: true,
        destination_published: false,
        verified: true,
        rollback_attempted: false,
        rollback_completed: false,
        dry_run: false,
        warnings,
        detail_artifact_ref: None,
    }
}

/// A journal file left by a mutation: `.chatcmd-operation-*.json`.
pub fn is_operation_journal_name(name: &str) -> (r: bool)
    ensures
        r == (starts_with_seq(name@, ".chatcmd-operation-"@) && ends_with_seq(name@, ".json"@)),
{
    let c = chars_of(name);
    starts_with_str(c.as_slice(), ".chatcmd-operation-") && ends_with_str(c.as_slice(), ".json")
}

/// A tree moved aside by a quarantining delete: `.chatcmd-quarantine-*`.
pub fn is_quarantine_name(name: &str) -> (r: bool)
    ensures
        r == starts_with_seq(name@, ".chatcmd-quarantine-"@),
{
    let c = chars_of(name);
    starts_with_str(c.as_slice(), ".chatcmd-quarantine-")
}

/// Only a quarantined tree can be restored.
pub fn check_quarantine_source(name: &str) -> (r: RuntimeResult<()>)
    ensures
        r is Ok <==> starts_with_seq(name@, ".chatcmd-quarantine-"@),
        r matches Err(e) ==> e.code@ == "invalid_quarantine_path"@,
{
    if !is_quarantine_name(name) {
        return Err(RuntimeError::new("invalid_quarantine_path", "restore source must be a ChatCMD-managed quarantine path"));
    }
    Ok(())
}

/// Every path a journal names lies within `root`; a journal that points elsewhere is
/// never acted on.
pub fn journal_paths_within_root(source: &str, destination: &str, staging: &str, backup: &str, root: &str) -> (r: bool)
    ensures
        r == (path_within(source@, root@) && path_within(destination@, root@) && path_within(staging@, root@)
            && path_within(backup@, root@)),
{
    within(source, root) && within(destination, root) && within(staging, root) && within(backup, root)
}

/// A journal phase at or after publication.
pub open spec fn published_phase(phase: Seq<char>) -> bool {
    phase == "published"@ || phase == "removingSource"@ || phase == "completed"@ || phase == "completedWithSourceRemaining"@
}

/// A step of the recovery of an interrupted transfer.
#[derive(Debug, Clone, Copy, PartialEq, Eq, Structural)]
pub enum RecoveryStep {
    /// Remove what was left at the staging path.
    RemoveStaging,
    /// Remove the old destination's backup.
    RemoveBackup,
    /// Put the old destination back from its backup.
    RestoreBackup,
}

/// What a restart does with the journal of an interrupted mutation.
#[derive(Debug, Clone, PartialEq, Eq)]
pub enum JournalRecovery {
    /// Leave it for later: its operation may still be running.
    Keep,
    /// Nothing is left to do; remove the journal.
    Remove,
    /// Take the steps in order; the journal goes when all of them succeed.
    Steps(Vec<RecoveryStep>),
}

/// The recovery of a journal of `operation_type` at `phase`: a delete's journal is kept
/// while its tree may still be moving (a quarantine with both the source and the
/// quarantine present, or a permanent delete still deleting an existing source), else
/// removed; a transfer removes its staged copy, and removes the old destination's backup
/// once the destination was published or exists, else puts the backup back.
pub open spec fn recovery_spec(
    operation_type: Seq<char>,
    phase: Seq<char>,
    delete_mode: Seq<char>,
    source_exists: bool,
    destination_exists: bool,
    staging_exists: bool,
    backup_exists: bool,
) -> (bool, bool, Seq<RecoveryStep>) {
    if operation_type == "delete"@ {
        if delete_mode == "quarantine"@ {
            if source_exists && destination_exists { (true, false, seq![]) } else { (false, true, seq![]) }
        } else if phase == "deleting"@ && source_exists {
            (true, false, seq![])
        } else {
            (false, true, seq![])
        }
    } else {
        let first: Seq<RecoveryStep> = if staging_exists { seq![RecoveryStep::RemoveStaging] } else { seq![] };
        let second: Seq<RecoveryStep> = if backup_exists {
            if published_phase(phase) || destination_exists { seq![RecoveryStep::RemoveBackup] } else { seq![RecoveryStep::RestoreBackup] }
        } else {
            seq![]
        };
        (false, false, first + second)
    }
}

/// Plans the recovery of an interrupted mutation from its journal and what exists now.
pub fn plan_recovery(
    operation_type: &str,
    phase: &str,
    delete_mode: &str,
    source_exists: bool,
    destination_exists: bool,
    staging_exists: bool,
    backup_exists: bool,
) -> (r: JournalRecovery)
    ensures
        ({
            let (keep, remove, steps) = recovery_spec(operation_type@, phase@, delete_mode@, source_exists, destination_exists, staging_exists, backup_exists);
            match r {
                JournalRecovery::Keep => keep,
                JournalRecovery::Remove => remove,
                JournalRecovery::Steps(v) => !keep && !remove && v@ == steps,
            }
        }),
{
    if str_eq(operation_type, "delete") {
        if str_eq(delete_mode, "quarantine") {
            if source_exists && destination_exists {
                return JournalRecovery::Keep;
            }
            return JournalRecovery::Remove;
        }
        if str_eq(phase, "deleting") && source_exists {
            return JournalRecovery::Keep;
        }
        return JournalRecovery::Remove;
    }
    let published = str_eq(phase, "published") || str_eq(phase, "removingSource") || str_eq(phase, "completed")
        || str_eq(phase, "completedWithSourceRemaining");
    let mut steps: Vec<RecoveryStep> = Vec::new();
    if staging_exists {
        steps.push(RecoveryStep::RemoveStaging);
    }
    if backup_exists {
        if published || destination_exists {
            steps.push(RecoveryStep::RemoveBackup);
        } else {
            steps.push(RecoveryStep::RestoreBackup);
        }
    }
    proof {
        let (keep, remove, expected) = recovery_spec(operation_type@, phase@, delete_mode@, source_exists, destination_exists, staging_exists, backup_exists);
        assert(steps@ =~= expected);
    }
    JournalRecovery::Steps(steps)
}

/// A recovery is complete, and its journal removed, when every step succeeded.
pub fn recovery_complete(outcomes: &Vec<bool>) -> (r: bool)
    ensures
        r == (forall|i: int| 0 <= i < outcomes@.len() ==> #[trigger] outcomes@[i]),
{
    let mut i: usize = 0;
    while i < outcomes.len()
        invariant
            i <= outcomes@.len(),
            forall|k: int| 0 <= k < i ==> #[trigger] outcomes@[k],
        decreases outcomes.len() - i,
    {
        if !outcomes[i] {
            return false;
        }
        i = i + 1;
    }
    true
}

/// An interrupted transfer never loses the old destination: before publication, with no
/// destination in place, its backup is put back and never removed.
pub proof fn lemma_recovery_keeps_the_old_destination(phase: Seq<char>, source_exists: bool, staging_exists: bool, operation_type: Seq<char>, delete_mode: Seq<char>)
    requires
        operation_type != "delete"@,
        !published_phase(phase),
    ensures
        ({
            let steps = recovery_spec(operation_type, phase, delete_mode, source_exists, false, staging_exists, true).2;
            &&& steps.contains(RecoveryStep::RestoreBackup)
            &&& !steps.contains(RecoveryStep::RemoveBackup)
        }),
{
    let steps = recovery_spec(operation_type, phase, delete_mode, source_exists, false, staging_exists, true).2;
    assert(steps[steps.len() - 1] == RecoveryStep::RestoreBackup);
    if steps.contains(RecoveryStep::RemoveBackup) {
        let k = choose|k: int| 0 <= k < steps.len() && steps[k] == RecoveryStep::RemoveBackup;
        assert(steps[k] != RecoveryStep::RemoveBackup);
    }
}

/// A published transfer keeps its new destination: recovery only cleans up around it.
pub proof fn lemma_recovery_after_publication_only_cleans_up(
    phase: Seq<char>,
    destination_exists: bool,
    source_exists: bool,
    staging_exists: bool,
    backup_exists: bool,
    operation_type: Seq<char>,
    delete_mode: Seq<char>,
)
    requires
        operation_type != "delete"@,
        published_phase(phase),
    ensures
        !recovery_spec(operation_type, phase, delete_mode, source_exists, destination_exists, staging_exists, backup_exists).2.contains(RecoveryStep::RestoreBackup),
{
    let steps = recovery_spec(operation_type, phase, delete_mode, source_exists, destination_exists, staging_exists, backup_exists).2;
    if steps.contains(RecoveryStep::RestoreBackup) {
        let k = choose|k: int| 0 <= k < steps.len() && steps[k] == RecoveryStep::RestoreBackup;
        assert(steps[k] != RecoveryStep::RestoreBackup);
    }
}

pub const MAX_QUARANTINE_ITEMS: u64 = 100000;

/// The most quarantined trees one collection looks at.
pub fn quarantine_max_items(requested: u64) -> (r: u64)
    ensures
        r == min_u64(requested, MAX_QUARANTINE_ITEMS),
{
    if requested < MAX_QUARANTINE_ITEMS { requested } else { MAX_QUARANTINE_ITEMS }
}

/// A collection that already found `found` quarantined trees may take another only below
/// its item limit.
pub fn check_quarantine_item(found: usize, max_items: u64) -> (r: RuntimeResult<()>)
    ensures
        r is Ok <==> (found as int) < max_items,
        r matches Err(e) ==> e.code@ == "budget_exceeded"@,
{
    if found as u64 >= max_items {
        return Err(RuntimeError::new("budget_exceeded", "quarantine GC exceeded maxItems"));
    }
    Ok(())
}

/// A quarantined tree: its size and when it was last modified.
#[derive(Debug, Clone, Copy, PartialEq, Eq, Structural)]
pub struct QuarantineCandidate {
    pub bytes: u64,
    pub modified_ns: u64,
}

/// Candidate `ai` comes before candidate `bi`: older first, then in the order found.
pub open spec fn older_first(c: Seq<QuarantineCandidate>, ai: int, bi: int) -> bool {
    c[ai].modified_ns < c[bi].modified_ns || (c[ai].modified_ns == c[bi].modified_ns && ai < bi)
}

/// `order` lists every candidate once, oldest first, in the order found among equals.
pub open spec fn gc_order(c: Seq<QuarantineCandidate>, order: Seq<usize>) -> bool {
    &&& order.len() == c.len()
    &&& forall|k: int| 0 <= k < order.len() ==> (#[trigger] order[k]) < c.len()
    &&& forall|a: int, b: int| 0 <= a < b < order.len() ==> older_first(c, #[trigger] order[a] as int, #[trigger] order[b] as int)
}

/// The sizes of the candidates added up, stopping at the largest `u64`.
pub open spec fn total_bytes(c: Seq<QuarantineCandidate>, n: int) -> u64
    decreases n,
{
    if n <= 0 { 0 } else { sat_add(total_bytes(c, n - 1), c[n - 1].bytes) }
}

pub open spec fn sat_sub_u64(a: u64, b: u64) -> u64 {
    if a >= b { (a - b) as u64 } else { 0 }
}

/// The candidate is removed: it expired, or what is kept is still over the limit.
pub open spec fn gc_removes(k: QuarantineCandidate, retained: u64, cutoff_ns: u64, max_total_bytes: u64) -> bool {
    k.modified_ns <= cutoff_ns || retained > max_total_bytes
}

/// What is still kept before the `i`-th candidate in collection order is looked at.
pub open spec fn retained_before(s: Seq<QuarantineCandidate>, total: u64, cutoff_ns: u64, max_total_bytes: u64, i: int) -> u64
    decreases i,
{
    if i <= 0 {
        total
    } else {
        let r = retained_before(s, total, cutoff_ns, max_total_bytes, i - 1);
        if gc_removes(s[i - 1], r, cutoff_ns, max_total_bytes) { sat_sub_u64(r, s[i - 1].bytes) } else { r }
    }
}

/// How many of the first `i` candidates in collection order go, and their bytes.
pub open spec fn removed_before(s: Seq<QuarantineCandidate>, total: u64, cutoff_ns: u64, max_total_bytes: u64, i: int) -> (u64, u64)
    decreases i,
{
    if i <= 0 {
        (0, 0)
    } else {
        let (n, b) = removed_before(s, total, cutoff_ns, max_total_bytes, i - 1);
        if gc_removes(s[i - 1], retained_before(s, total, cutoff_ns, max_total_bytes, i - 1), cutoff_ns, max_total_bytes) {
            (sat_add(n, 1), sat_add(b, s[i - 1].bytes))
        } else {
            (n, b)
        }
    }
}

/// Which quarantined trees a collection removes, and what it reports.
#[derive(Debug, Clone)]
pub struct QuarantineGcPlan {
    /// The candidates in the order they are looked at.
    pub order: Vec<usize>,
    /// Whether the candidate looked at in each place is removed.
    pub remove: Vec<bool>,
    pub removed_items: u64,
    pub bytes_removed: u64,
    pub retained_bytes: u64,
}

/// Orders the candidates oldest first, keeping the order found among equals.
fn oldest_first(c: &Vec<QuarantineCandidate>) -> (order: Vec<usize>)
    ensures
        gc_order(c@, order@),
{
    let n = c.len();
    let mut order: Vec<usize> = Vec::new();
    let mut i: usize = 0;
    while i < n
        invariant
            n == c@.len(),
            i <= n,
            order@.len() == i,
            forall|k: int| 0 <= k < order@.len() ==> (#[trigger] order@[k]) < i,
            forall|a: int, b: int| 0 <= a < b < order@.len() ==> older_first(c@, #[trigger] order@[a] as int, #[trigger] order@[b] as int),
        decreases n - i,
    {
        let mut p: usize = 0;
        while p < order.len()
            invariant
                n == c@.len(),
                i < n,
                p <= order@.len(),
                order@.len() == i,
                forall|k: int| 0 <= k < order@.len() ==> (#[trigger] order@[k]) < i,
                forall|k: int| 0 <= k < p ==> older_first(c@, #[trigger] order@[k] as int, i as int),
            ensures
                p <= order@.len(),
                forall|k: int| 0 <= k < p ==> older_first(c@, #[trigger] order@[k] as int, i as int),
                p < order@.len() ==> c@[i as int].modified_ns < c@[order@[p as int] as int].modified_ns,
            decreases order@.len() - p,
        {
            let q = order[p];
            if c[i].modified_ns < c[q].modified_ns {
                break;
            }
            p = p + 1;
        }
        let ghost before = order@;
        order.insert(p, i);
        proof {
            assert forall|a: int, b: int| 0 <= a < b < order@.len() implies older_first(c@, #[trigger] order@[a] as int, #[trigger] order@[b] as int) by {
                if b < p {
                    assert(order@[a] == before[a] && order@[b] == before[b]);
                } else if b == p {
                    assert(order@[a] == before[a]);
                } else if a == p {
                    assert(order@[b] == before[b - 1]);
                    if b - 1 > p {
                        assert(older_first(c@, before[p as int] as int, before[b - 1] as int));
                    }
                } else if a < p {
                    assert(order@[a] == before[a] && order@[b] == before[b - 1]);
                } else {
                    assert(order@[a] == before[a - 1] && order@[b] == before[b - 1]);
                }
            }
            assert forall|k: int| 0 <= k < order@.len() implies (#[trigger] order@[k]) < i + 1 by {
                if k < p {
                    assert(order@[k] == before[k]);
                } else if k > p {
                    assert(order@[k] == before[k - 1]);
                }
            }
        }
        i = i + 1;
    }
    order
}

/// Plans a collection: the trees are looked at oldest first; each is removed when it is
/// older than the cutoff or what is kept is over `max_total_bytes`.
pub fn plan_quarantine_gc(candidates: &Vec<QuarantineCandidate>, cutoff_ns: u64, max_total_bytes: u64) -> (r: QuarantineGcPlan)
    ensures
        gc_order(candidates@, r.order@),
        r.remove@.len() == candidates@.len(),
        ({
            let s = r.order@.map_values(|k: usize| candidates@[k as int]);
            let total = total_bytes(candidates@, candidates@.len() as int);
            &&& forall|k: int| 0 <= k < r.remove@.len() ==> #[trigger] r.remove@[k]
                == gc_removes(s[k], retained_before(s, total, cutoff_ns, max_total_bytes, k), cutoff_ns, max_total_bytes)
            &&& r.retained_bytes == retained_before(s, total, cutoff_ns, max_total_bytes, s.len() as int)
            &&& (r.removed_items, r.bytes_removed) == removed_before(s, total, cutoff_ns, max_total_bytes, s.len() as int)
        }),
{
    let order = oldest_first(candidates);
    let n = candidates.len();
    let mut total: u64 = 0;
    let mut i: usize = 0;
    while i < n
        invariant
            n == candidates@.len(),
            i <= n,
            total == total_bytes(candidates@, i as int),
        decreases n - i,
    {
        total = total.saturating_add(candidates[i].bytes);
        i = i + 1;
    }
    let ghost s = order@.map_values(|k: usize| candidates@[k as int]);
    let mut remove: Vec<bool> = Vec::new();
    let mut retained = total;
    let mut removed_items: u64 = 0;
    let mut bytes_removed: u64 = 0;
    let mut k: usize = 0;
    while k < n
        invariant
            n == candidates@.len(),
            gc_order(candidates@, order@),
            s == order@.map_values(|j: usize| candidates@[j as int]),
            k <= n,
            remove@.len() == k,
            forall|j: int| 0 <= j < k ==> #[trigger] remove@[j]
                == gc_removes(s[j], retained_before(s, total, cutoff_ns, max_total_bytes, j), cutoff_ns, max_total_bytes),
            retained == retained_before(s, total, cutoff_ns, max_total_bytes, k as int),
            (removed_items, bytes_removed) == removed_before(s, total, cutoff_ns, max_total_bytes, k as int),
        decreases n - k,
    {
        let item = candidates[order[k]];
        assert(item == s[k as int]);
        let expired = item.modified_ns <= cutoff_ns;
        let over_quota = retained > max_total_bytes;
        let goes = expired || over_quota;
        remove.push(goes);
        if goes {
            removed_items = removed_items.saturating_add(1);
            bytes_removed = bytes_removed.saturating_add(item.bytes);
            retained = if retained >= item.bytes { retained - item.bytes } else { 0 };
        }
        k = k + 1;
    }
    QuarantineGcPlan { order, remove, removed_items, bytes_removed, retained_bytes: retained }
}

proof fn lemma_retained_shrinks(s: Seq<QuarantineCandidate>, total: u64, cutoff_ns: u64, max_total_bytes: u64, j: int, i: int)
    requires
        0 <= j <= i,
    ensures
        retained_before(s, total, cutoff_ns, max_total_bytes, i) <= retained_before(s, total, cutoff_ns, max_total_bytes, j),
    decreases i - j,
{
    if j < i {
        lemma_retained_shrinks(s, total, cutoff_ns, max_total_bytes, j, i - 1);
    }
}

/// A collection keeps no more than the byte limit, unless it removed every tree.
pub proof fn lemma_gc_meets_quota(s: Seq<QuarantineCandidate>, total: u64, cutoff_ns: u64, max_total_bytes: u64)
    ensures
        retained_before(s, total, cutoff_ns, max_total_bytes, s.len() as int) <= max_total_bytes
            || forall|k: int| 0 <= k < s.len() ==> #[trigger] gc_removes(s[k], retained_before(s, total, cutoff_ns, max_total_bytes, k), cutoff_ns, max_total_bytes),
{
    if retained_before(s, total, cutoff_ns, max_total_bytes, s.len() as int) > max_total_bytes {
        assert forall|k: int| 0 <= k < s.len() implies #[trigger] gc_removes(s[k], retained_before(s, total, cutoff_ns, max_total_bytes, k), cutoff_ns, max_total_bytes) by {
            lemma_retained_shrinks(s, total, cutoff_ns, max_total_bytes, k, s.len() as int);
        }
    }
}

/// Checks a staged entry against its source: both directories or both not, and a file of
/// the same length. Returns whether the file's content must be compared as well.
pub fn check_staged_entry(mode: FsVerifyMode, source_is_dir: bool, staged_is_dir: bool, source_len: u64, staged_len: u64) -> (r: RuntimeResult<bool>)
    ensures
        (source_is_dir != staged_is_dir || (!source_is_dir && source_len != staged_len))
            ==> (r matches Err(e) && e.code@ == "verification_failed"@),
        !(source_is_dir != staged_is_dir || (!source_is_dir && source_len != staged_len))
            ==> r == Ok::<bool, RuntimeError>(!source_is_dir && mode == FsVerifyMode::Content),
{
    if source_is_dir != staged_is_dir || (!source_is_dir && source_len != staged_len) {
        return Err(RuntimeError::new("verification_failed", "staged copy metadata differs from source"));
    }
    Ok(!source_is_dir && mode == FsVerifyMode::Content)
}

/// A staged file's content hash must equal its source's.
pub fn check_staged_hash(source_hash: &[u8], staged_hash: &[u8]) -> (r: RuntimeResult<()>)
    ensures
        r is Ok <==> source_hash@ == staged_hash@,
        r matches Err(e) ==> e.code@ == "verification_failed"@,
{
    let mut same = source_hash.len() == staged_hash.len();
    let mut i: usize = 0;
    while same && i < source_hash.len()
        invariant
            i <= source_hash@.len(),
            same ==> source_hash@.len() == staged_hash@.len(),
            same ==> source_hash@.subrange(0, i as int) == staged_hash@.subrange(0, i as int),
            !same ==> source_hash@ != staged_hash@,
        decreases source_hash.len() - i + (if same { 1int } else { 0int }),
    {
        if source_hash[i] != staged_hash[i] {
            same = false;
        } else {
            i = i + 1;
            assert(source_hash@.subrange(0, i as int) =~= source_hash@.subrange(0, i - 1).push(source_hash@[i - 1]));
            assert(staged_hash@.subrange(0, i as int) =~= staged_hash@.subrange(0, i - 1).push(staged_hash@[i - 1]));
        }
    }
    if same {
        assert(source_hash@ =~= source_hash@.subrange(0, i as int));
        assert(staged_hash@ =~= staged_hash@.subrange(0, i as int));
        Ok(())
    } else {
        Err(RuntimeError::new("verification_failed", "staged file content hash differs from source"))
    }
}

/// `parent` joined with `name`.
pub open spec fn joined(parent: Seq<char>, name: Seq<char>) -> Seq<char> {
    if parent.len() > 0 && parent.last() == '/' { parent + name } else { parent + "/"@ + name }
}

/// Joins a directory and a name.
pub fn join_path(parent: &str, name: &str) -> (r: String)
    ensures
        r@ == joined(parent@, name@),
{
    let c = chars_of(parent);
    if c.len() > 0 && c[c.len() - 1] == '/' {
        concat_str(parent, name)
    } else {
        let with_slash = concat_str(parent, "/");
        concat_str(with_slash.as_str(), name)
    }
}

/// The staging path, backup path and journal of a transfer into `parent`.
pub fn transfer_paths(parent: &str, operation_id: &str) -> (r: (String, String, String))
    ensures
        r.0@ == joined(parent@, ".chatcmd-stage-"@ + operation_id@),
        r.1@ == joined(parent@, ".chatcmd-backup-"@ + operation_id@),
        r.2@ == joined(parent@, ".chatcmd-operation-"@ + operation_id@ + ".json"@),
{
    let stage = concat_str(".chatcmd-stage-", operation_id);
    let backup = concat_str(".chatcmd-backup-", operation_id);
    let journal_name = concat_str(".chatcmd-operation-", operation_id);
    let journal = concat_str(journal_name.as_str(), ".json");
    (join_path(parent, stage.as_str()), join_path(parent, backup.as_str()), join_path(parent, journal.as_str()))
}

/// The quarantine path and journal of a delete in `parent`.
pub fn delete_paths(parent: &str, operation_id: &str) -> (r: (String, String))
    ensures
        r.0@ == joined(parent@, ".chatcmd-quarantine-"@ + operation_id@),
        r.1@ == joined(parent@, ".chatcmd-operation-"@ + operation_id@ + ".json"@),
{
    let quarantine = concat_str(".chatcmd-quarantine-", operation_id);
    let journal_name = concat_str(".chatcmd-operation-", operation_id);
    let journal = concat_str(journal_name.as_str(), ".json");
    (join_path(parent, quarantine.as_str()), join_path(parent, journal.as_str()))
}

/// A copy or move request.
#[derive(Debug, Clone)]
pub struct FsTransferRequest {
    pub source: String,
    pub destination: String,
    pub conflict_policy: FsConflictPolicy,
    pub atomic_publish: bool,
    pub verify: FsVerifyMode,
    pub preserve_metadata: bool,
    pub follow_symlinks: bool,
    pub dry_run: bool,
    pub expected_source_version: Option<String>,
    pub expected_destination_version: Option<String>,
    pub budget: FsMutationBudget,
}

/// The request of a plain copy or move (or a restore from quarantine): staged and
/// published atomically, checked by metadata, keeping permissions, replacing an existing
/// destination only when asked to.
pub fn plain_transfer_request(source: &str, destination: &str, replace: bool, budget: FsMutationBudget) -> (r: FsTransferRequest)
    ensures
        r.source@ == source@,
        r.destination@ == destination@,
        r.conflict_policy == (if replace { FsConflictPolicy::Replace } else { FsConflictPolicy::Error }),
        r.atomic_publish,
        r.verify == FsVerifyMode::Metadata,
        r.preserve_metadata,
        !r.follow_symlinks,
        !r.dry_run,
        r.expected_source_version is None,
        r.expected_destination_version is None,
        r.budget == budget,
{
    FsTransferRequest {
        source: source.to_owned(),
        destination: destination.to_owned(),
        conflict_policy: if replace { FsConflictPolicy::Replace } else { FsConflictPolicy::Error },
        atomic_publish: true,
        verify: FsVerifyMode::Metadata,
        preserve_metadata: true,
        follow_symlinks: false,
        dry_run: false,
        expected_source_version: None,
        expected_destination_version: None,
        budget,
    }
}

/// A plain copy succeeded when it completed or was skipped; a plain move when it
/// completed, even with its source left behind. Any other state is an error named by it.
pub fn transfer_outcome(state: &str, moving: bool) -> (r: RuntimeResult<()>)
    ensures
        r is Ok <==> (if moving {
            state@ == "completed"@ || state@ == "completedWithSourceRemaining"@
        } else {
            state@ == "completed"@ || state@ == "skipped"@
        }),
        r matches Err(e) ==> e.code@ == "mutation_incomplete"@ && e.message@ == state@,
{
    let ok = if moving {
        str_eq(state, "completed") || str_eq(state, "completedWithSourceRemaining")
    } else {
        str_eq(state, "completed") || str_eq(state, "skipped")
    };
    if !ok {
        return Err(RuntimeError::new("mutation_incomplete", state));
    }
    Ok(())
}

/// A long mutation stops when it is cancelled or its deadline passed.
pub fn mutation_checkpoint(cancelled: bool, now_ms: u64, deadline_ms: u64) -> (r: RuntimeResult<()>)
    ensures
        cancelled ==> (r matches Err(e) && e.code@ == "cancelled"@),
        !cancelled && now_ms >= deadline_ms ==> (r matches Err(e) && e.code@ == "timeout"@),
        !cancelled && now_ms < deadline_ms ==> r is Ok,
{
    if cancelled {
        Err(RuntimeError::new("cancelled", "filesystem mutation was cancelled"))
    } else if now_ms >= deadline_ms {
        Err(RuntimeError::new("timeout", "filesystem mutation timed out"))
    } else {
        Ok(())
    }
}

} // verus!
