//! Paged directory listings: what a page may scan and stat, when it stops and why, and
//! when a continuation cursor still fits the directory it was issued for.
//!
//! A page is scanned in steps: before each entry the scan is asked whether to read one
//! (`ListScan::next_step`); each entry read is handed to `ListScan::on_entry`, which decides
//! whether it is skipped, built into an item, or held back for the next page; each built
//! item is reported with `ListScan::on_item`.

use vstd::prelude::*;
use crate::error::{RuntimeError, RuntimeResult};
use crate::text::{chars_of, str_eq};

verus! {

pub const MAX_PAGE_ITEMS: usize = 2000;
pub const MAX_WARNINGS: usize = 20;

/// Metadata a listing may report per entry.
#[derive(Debug, Clone, Copy, PartialEq, Eq, Structural)]
pub enum FsListMetadata {
    Type,
    Size,
    Readonly,
}

/// The order entries are listed in.
#[derive(Debug, Clone, Copy, PartialEq, Eq, Structural)]
pub enum FsListSort {
    /// The order the filesystem returns them in.
    Filesystem,
}

/// Why a page stopped before the directory ended.
#[derive(Debug, Clone, Copy, PartialEq, Eq, Structural)]
pub enum TruncationReason {
    Cancelled,
    TimeBudget,
    ItemLimit,
    MetadataBudget,
}

/// The requested metadata in canonical order, each at most once.
pub open spec fn normalized_spec(m: Seq<FsListMetadata>) -> Seq<FsListMetadata> {
    (if m.contains(FsListMetadata::Type) { seq![FsListMetadata::Type] } else { Seq::empty() })
        + (if m.contains(FsListMetadata::Size) { seq![FsListMetadata::Size] } else { Seq::empty() })
        + (if m.contains(FsListMetadata::Readonly) { seq![FsListMetadata::Readonly] } else { Seq::empty() })
}

fn contains_metadata(m: &Vec<FsListMetadata>, x: FsListMetadata) -> (r: bool)
    ensures
        r == m@.contains(x),
{
    let mut i: usize = 0;
    while i < m.len()
        invariant
            i <= m@.len(),
            forall|k: int| 0 <= k < i ==> m@[k] != x,
        decreases m.len() - i,
    {
        if m[i] == x {
            assert(m@[i as int] == x);
            return true;
        }
        i = i + 1;
    }
    false
}

/// The requested metadata in canonical order, without repeats.
pub fn normalized_metadata(metadata: &Vec<FsListMetadata>) -> (r: Vec<FsListMetadata>)
    ensures
        r@ == normalized_spec(metadata@),
{
    let mut r: Vec<FsListMetadata> = Vec::new();
    if contains_metadata(metadata, FsListMetadata::Type) {
        r.push(FsListMetadata::Type);
    }
    if contains_metadata(metadata, FsListMetadata::Size) {
        r.push(FsListMetadata::Size);
    }
    if contains_metadata(metadata, FsListMetadata::Readonly) {
        r.push(FsListMetadata::Readonly);
    }
    assert(r@ =~= normalized_spec(metadata@));
    r
}

/// A hidden entry: its name starts with a dot.
pub fn is_hidden_name(name: &str) -> (r: bool)
    ensures
        r == (name@.len() > 0 && name@[0] == '.'),
{
    let c = chars_of(name);
    c.len() > 0 && c[0] == '.'
}

/// Whether one more warning is kept on a page that already has `count`.
pub fn keeps_warning(count: usize) -> (r: bool)
    ensures
        r == (count < MAX_WARNINGS),
{
    count < MAX_WARNINGS
}

/// What the scan does next.
#[derive(Debug, Clone, Copy, PartialEq, Eq, Structural)]
pub enum ListStep {
    /// Read the next directory entry.
    Read,
    /// The page is complete.
    Done,
}

/// What becomes of an entry that was read.
#[derive(Debug, Clone, Copy, PartialEq, Eq, Structural)]
pub enum EntryDecision {
    /// Hidden and not requested: it is passed over.
    Skip,
    /// Build it into an item (statting it if metadata needs it) and report it.
    Build,
    /// Keep it for the next page.
    Hold,
}

/// The scan of one page.
#[derive(Debug, Clone, Copy)]
pub struct ListScan {
    pub limit: usize,
    pub max_entries: u64,
    pub max_stats: u64,
    pub needs_stat: bool,
    pub include_hidden: bool,
    pub items: usize,
    pub entries_scanned: u64,
    pub metadata_calls: u64,
    pub truncation: Option<TruncationReason>,
    pub has_more: bool,
    /// The page is full: the scan only looks for one more visible entry.
    pub probing: bool,
    /// An entry may be read (the last step was `Read`).
    pub reading: bool,
    /// An item is being built (the last decision was `Build`).
    pub building: bool,
    pub done: bool,
}

impl ListScan {
    /// The bounds every page keeps: at most `limit` items, at most `max_entries` entries
    /// scanned, and, when entries are statted, at most `max_stats` metadata calls.
    pub open spec fn wf(self) -> bool {
        &&& 1 <= self.limit <= MAX_PAGE_ITEMS
        &&& self.max_entries >= 1
        &&& self.items <= self.limit
        &&& self.entries_scanned <= self.max_entries
        &&& (self.needs_stat ==> self.metadata_calls <= self.max_stats)
        &&& (!self.needs_stat ==> self.metadata_calls == 0)
        &&& (self.reading ==> !self.done && self.entries_scanned < self.max_entries
            && (self.probing || self.items < self.limit))
        &&& (self.has_more ==> self.done)
        &&& (self.building ==> !self.done && !self.reading && self.items < self.limit
            && (self.needs_stat ==> self.metadata_calls < self.max_stats))
        &&& (self.probing ==> self.items == self.limit)
        &&& (self.truncation is Some ==> self.has_more && self.done)
    }

    /// A fresh scan: the page size is kept between 1 and 2000, at least one entry may be
    /// scanned, and entries are statted when size or read-only status is requested.
    pub fn new(limit: usize, max_entries_scanned: u64, max_stats: u64, metadata: &Vec<FsListMetadata>, include_hidden: bool) -> (s: Self)
        ensures
            s.wf(),
            s.limit == (if limit < 1 { 1 } else if limit > MAX_PAGE_ITEMS { MAX_PAGE_ITEMS } else { limit }),
            s.max_entries == (if max_entries_scanned < 1 { 1 } else { max_entries_scanned }),
            s.max_stats == max_stats,
            s.needs_stat == (metadata@.contains(FsListMetadata::Size) || metadata@.contains(FsListMetadata::Readonly)),
            s.include_hidden == include_hidden,
            s.items == 0 && s.entries_scanned == 0 && s.metadata_calls == 0,
            s.truncation is None && !s.has_more && !s.probing && !s.reading && !s.building && !s.done,
    {
        ListScan {
            limit: if limit < 1 { 1 } else if limit > MAX_PAGE_ITEMS { MAX_PAGE_ITEMS } else { limit },
            max_entries: if max_entries_scanned < 1 { 1 } else { max_entries_scanned },
            max_stats,
            needs_stat: contains_metadata(metadata, FsListMetadata::Size) || contains_metadata(metadata, FsListMetadata::Readonly),
            include_hidden,
            items: 0,
            entries_scanned: 0,
            metadata_calls: 0,
            truncation: None,
            has_more: false,
            probing: false,
            reading: false,
            building: false,
            done: false,
        }
    }

    /// Before the next entry: stops on cancellation, on the time budget, or when the entry
    /// budget is spent (each a truncation that leaves more to list); otherwise asks for an
    /// entry. Once the page is full, the scan only probes for one more visible entry.
    pub fn next_step(&mut self, cancelled: bool, timed_out: bool) -> (step: ListStep)
        requires
            old(self).wf(),
            !old(self).done,
            !old(self).reading,
            !old(self).building,
        ensures
            final(self).wf(),
            final(self).limit == old(self).limit,
            final(self).max_entries == old(self).max_entries,
            final(self).max_stats == old(self).max_stats,
            final(self).needs_stat == old(self).needs_stat,
            final(self).include_hidden == old(self).include_hidden,
            final(self).items == old(self).items,
            final(self).entries_scanned == old(self).entries_scanned,
            final(self).metadata_calls == old(self).metadata_calls,
            !final(self).building,
            final(self).probing == (old(self).probing || old(self).items == old(self).limit),
            ({
                let reason = if cancelled {
                    Some(TruncationReason::Cancelled)
                } else if timed_out {
                    Some(TruncationReason::TimeBudget)
                } else if old(self).entries_scanned >= old(self).max_entries {
                    Some(TruncationReason::ItemLimit)
                } else {
                    None::<TruncationReason>
                };
                match reason {
                    Some(t) => step == ListStep::Done && final(self).truncation == Some(t) && final(self).has_more
                        && final(self).done && !final(self).reading,
                    None => step == ListStep::Read && final(self).truncation is None && !final(self).has_more
                        && !final(self).done && final(self).reading,
                }
            }),
    {
        if self.items == self.limit {
            self.probing = true;
        }
        let reason = if cancelled {
            Some(TruncationReason::Cancelled)
        } else if timed_out {
            Some(TruncationReason::TimeBudget)
        } else if self.entries_scanned >= self.max_entries {
            Some(TruncationReason::ItemLimit)
        } else {
            None
        };
        match reason {
            Some(t) => {
                self.truncation = Some(t);
                self.has_more = true;
                self.done = true;
                ListStep::Done
            },
            None => {
                self.reading = true;
                ListStep::Read
            },
        }
    }

    /// The directory has no more entries: the page is complete and nothing is left.
    pub fn end_of_directory(&mut self)
        requires
            old(self).wf(),
            old(self).reading,
        ensures
            final(self).wf(),
            *final(self) == (ListScan { reading: false, done: true, ..*old(self) }),
    {
        self.reading = false;
        self.done = true;
    }

    /// An entry was read. A hidden entry that was not asked for is skipped; a visible entry
    /// found while probing, or one that would need a metadata call past the budget, is held
    /// for the next page; any other is built.
    pub fn on_entry(&mut self, hidden: bool) -> (d: EntryDecision)
        requires
            old(self).wf(),
            old(self).reading,
        ensures
            final(self).wf(),
            final(self).entries_scanned == old(self).entries_scanned + 1,
            !final(self).reading,
            (!old(self).include_hidden && hidden) ==> d == EntryDecision::Skip
                && *final(self) == (ListScan { entries_scanned: final(self).entries_scanned, reading: false, ..*old(self) }),
            !(!old(self).include_hidden && hidden) && old(self).probing ==> d == EntryDecision::Hold
                && *final(self) == (ListScan { entries_scanned: final(self).entries_scanned, reading: false, has_more: true, done: true, ..*old(self) }),
            !(!old(self).include_hidden && hidden) && !old(self).probing && old(self).needs_stat && old(self).metadata_calls >= old(self).max_stats
                ==> d == EntryDecision::Hold && *final(self) == (ListScan {
                    entries_scanned: final(self).entries_scanned,
                    reading: false,
                    has_more: true,
                    done: true,
                    truncation: Some(TruncationReason::MetadataBudget),
                    ..*old(self)
                }),
            !(!old(self).include_hidden && hidden) && !old(self).probing && !(old(self).needs_stat && old(self).metadata_calls >= old(self).max_stats)
                ==> d == EntryDecision::Build
                && *final(self) == (ListScan { entries_scanned: final(self).entries_scanned, reading: false, building: true, ..*old(self) }),
    {
        self.reading = false;
        self.entries_scanned = self.entries_scanned + 1;
        if !self.include_hidden && hidden {
            return EntryDecision::Skip;
        }
        if self.probing {
            self.has_more = true;
            self.done = true;
            return EntryDecision::Hold;
        }
        if self.needs_stat && self.metadata_calls >= self.max_stats {
            self.truncation = Some(TruncationReason::MetadataBudget);
            self.has_more = true;
            self.done = true;
            return EntryDecision::Hold;
        }
        self.building = true;
        EntryDecision::Build
    }

    /// The entry was built (`built`) or failed with a warning; building it took one
    /// metadata call when entries are statted.
    pub fn on_item(&mut self, built: bool)
        requires
            old(self).wf(),
            old(self).building,
        ensures
            final(self).wf(),
            *final(self) == (ListScan {
                building: false,
                items: if built { (old(self).items + 1) as usize } else { old(self).items },
                metadata_calls: if old(self).needs_stat { (old(self).metadata_calls + 1) as u64 } else { old(self).metadata_calls },
                ..*old(self)
            }),
    {
        self.building = false;
        if self.needs_stat {
            self.metadata_calls = self.metadata_calls + 1;
        }
        if built {
            self.items = self.items + 1;
        }
    }
}

/// What a continuation cursor was issued for.
#[derive(Debug, Clone)]
pub struct ListCursorScope {
    pub path: String,
    pub sort: FsListSort,
    pub metadata: Vec<FsListMetadata>,
    pub include_hidden: bool,
    pub directory_version: String,
}

/// The first reason a continuation does not fit its cursor, if any.
pub open spec fn cursor_error(
    scope: ListCursorScope,
    path: Seq<char>,
    sort: FsListSort,
    metadata: Seq<FsListMetadata>,
    include_hidden: bool,
    expected_version: Option<Seq<char>>,
    current_version: Seq<char>,
) -> Option<Seq<char>> {
    if scope.path@ != path || scope.sort != sort || scope.metadata@ != normalized_spec(metadata) || scope.include_hidden != include_hidden {
        Some("cursor_scope_mismatch"@)
    } else if expected_version != Some(scope.directory_version@) {
        Some("cursor_scope_mismatch"@)
    } else if current_version != scope.directory_version@ {
        Some("directory_changed"@)
    } else {
        None
    }
}

fn same_metadata(a: &Vec<FsListMetadata>, b: &Vec<FsListMetadata>) -> (r: bool)
    ensures
        r == (a@ == b@),
{
    if a.len() != b.len() {
        return false;
    }
    let mut i: usize = 0;
    while i < a.len()
        invariant
            a@.len() == b@.len(),
            i <= a@.len(),
            forall|k: int| 0 <= k < i ==> a@[k] == b@[k],
        decreases a.len() - i,
    {
        if a[i] != b[i] {
            return false;
        }
        i = i + 1;
    }
    assert(a@ =~= b@);
    true
}

/// Checks a continuation against the cursor it presents: the same path, order, metadata and
/// hidden-entry option, the directory version the cursor carries, and a directory that has
/// not changed since.
pub fn check_cursor(
    scope: &ListCursorScope,
    path: &str,
    sort: FsListSort,
    metadata: &Vec<FsListMetadata>,
    include_hidden: bool,
    expected_version: Option<&str>,
    current_version: &str,
) -> (r: RuntimeResult<()>)
    ensures
        match cursor_error(*scope, path@, sort, metadata@, include_hidden, match expected_version { Some(v) => Some(v@), None => None }, current_version@) {
            None => r is Ok,
            Some(code) => r matches Err(e) && e.code@ == code,
        },
{
    let normalized = normalized_metadata(metadata);
    if !str_eq(scope.path.as_str(), path) || scope.sort != sort || !same_metadata(&scope.metadata, &normalized) || scope.include_hidden != include_hidden {
        return Err(RuntimeError::new("cursor_scope_mismatch", "cursor does not match path, sort, metadata, or filter options"));
    }
    let expected_matches = match expected_version {
        Some(v) => str_eq(v, scope.directory_version.as_str()),
        None => false,
    };
    if !expected_matches {
        return Err(RuntimeError::new("cursor_scope_mismatch", "cursor directory version does not match its server state"));
    }
    if !str_eq(current_version, scope.directory_version.as_str()) {
        return Err(RuntimeError::new("directory_changed", "directory changed after the cursor was issued; restart listing"));
    }
    Ok(())
}


/// The bytes a directory's version digests: its path, modification and creation times in
/// nanoseconds, size, and whether it is read-only.
pub open spec fn directory_version_input(path: Seq<char>, modified_ns: u128, created_ns: u128, len: u64, readonly: bool) -> Seq<u8> {
    vstd::utf8::encode_utf8(path) + crate::version::le_bytes(modified_ns as nat, 16) + crate::version::le_bytes(created_ns as nat, 16)
        + crate::version::le_bytes(len as nat, 8) + seq![if readonly { 1u8 } else { 0u8 }]
}

/// The version a listing cursor carries of its directory: `sha256:` and the digest of
/// the directory's path and metadata.
pub fn directory_version(path: &str, modified_ns: u128, created_ns: u128, len: u64, readonly: bool) -> (r: String)
    ensures
        r@ == "sha256:"@ + crate::digest::spec_sha256_hex(directory_version_input(path@, modified_ns, created_ns, len, readonly)),
{
    let mut bytes: Vec<u8> = Vec::new();
    let b = path.as_bytes();
    let mut i: usize = 0;
    while i < b.len()
        invariant
            i <= b@.len(),
            bytes@ == b@.subrange(0, i as int),
        decreases b.len() - i,
    {
        bytes.push(b[i]);
        i = i + 1;
        assert(bytes@ =~= b@.subrange(0, i as int));
    }
    assert(b@.subrange(0, b@.len() as int) =~= b@);
    crate::version::push_le_u128(&mut bytes, modified_ns);
    crate::version::push_le_u128(&mut bytes, created_ns);
    crate::version::push_le_u64(&mut bytes, len);
    bytes.push(if readonly { 1u8 } else { 0u8 });
    assert(bytes@ =~= directory_version_input(path@, modified_ns, created_ns, len, readonly));
    let digest = crate::digest::sha256_hex(bytes.as_slice());
    crate::text::concat_str("sha256:", digest.as_str())
}

} // verus!
