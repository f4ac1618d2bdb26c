//! Bounded, metadata-only filesystem enumeration of one root into
//! provisional observation batches.
//!
//! The enumerator is an isolated producer: it has no parser, database
//! connection, watcher or source-file mutation capability. The caller owns
//! staging and must discard every provisional batch unless the returned
//! report is authoritative and the durable publication fence succeeds.
use vstd::prelude::*;

pub mod cancel;
pub mod conversions;
pub mod engine;
pub mod paths;
pub mod time;
pub mod windows;

use core::time::Duration;
use paths::{DisplayRelativePath, NormalizedLocator};

verus! {

/// The largest observation batch, in records.
pub const HARD_MAX_BATCH_RECORDS: usize = 512;
/// The largest observation batch, in estimated bytes.
pub const HARD_MAX_BATCH_BYTES: usize = 256 * 1024 * 1024;

/// Case behavior reported by an opened directory handle: a directory
/// property, not a global lowercase-normalization rule.
#[derive(Clone, Copy, Debug, PartialEq, Eq, PartialOrd, Ord, Structural)]
pub enum DirectoryCaseSensitivity {
    Sensitive,
    Insensitive,
}

impl Default for DirectoryCaseSensitivity {
    fn default() -> (r: Self)
        ensures
            r == DirectoryCaseSensitivity::Insensitive,
    {
        DirectoryCaseSensitivity::Insensitive
    }
}

/// Physical identity qualified only for the local NTFS scope.
#[derive(Clone, Copy, Debug, PartialEq, Eq, Hash, PartialOrd, Ord, Structural)]
pub struct QualifiedIdentity {
    pub volume_serial: u64,
    pub file_id: u128,
    pub qualification: IdentityQualification,
}

#[derive(Clone, Copy, Debug, PartialEq, Eq, Hash, PartialOrd, Ord, Structural)]
pub enum IdentityQualification {
    LocalNtfs,
}

#[derive(Clone, Copy, Debug, PartialEq, Eq, Structural)]
pub enum EntryKind {
    File,
    Directory,
    Other,
}

/// Metadata returned by a filesystem port. No content is present here.
#[derive(Clone, Copy, Debug, PartialEq, Eq, Structural)]
pub struct FileMetadata {
    pub kind: EntryKind,
    pub byte_size: u64,
    pub modified_unix_ns: i128,
    pub identity: Option<QualifiedIdentity>,
    pub reparse_point: bool,
    pub recall_or_offline: bool,
}

#[derive(Clone, Copy, Debug, PartialEq, Eq, Structural)]
pub enum FilesystemQualification {
    LocalNtfs,
    Unqualified,
}

#[derive(Clone, Copy, Debug, PartialEq, Eq, Structural)]
pub struct RootMetadata {
    pub metadata: FileMetadata,
    pub qualification: FilesystemQualification,
}

/// One entry returned by a directory cursor. `name` is `None` when the
/// entry's name is not valid Unicode.
#[derive(Clone, Debug, PartialEq, Eq)]
pub struct DirectoryEntry {
    pub name: Option<String>,
}

impl DirectoryEntry {
    pub fn new(name: &str) -> (r: Self)
        ensures
            r.name matches Some(n) && n@ == name@,
    {
        DirectoryEntry { name: Some(name.to_owned()) }
    }

    /// An entry whose name is not valid Unicode.
    pub fn non_unicode() -> (r: Self)
        ensures
            r.name is None,
    {
        DirectoryEntry { name: None }
    }
}

/// Coarse, path-free errors a port may inject or observe.
#[derive(Clone, Copy, Debug, PartialEq, Eq, Structural)]
pub enum PortError {
    AccessDenied,
    NotFound,
    ResourceLimit,
    Unsupported,
    ReparsePoint,
    Changed,
    Other,
}

/// An opened directory capability. All operations are relative to the same
/// opened directory handle; callers never turn an entry name back into an
/// independently resolved path.
///
/// A cursor may list a fixed tree: `tree` maps each directory, by the names
/// leading to it from the root, to its entries (name and metadata) in
/// listing order; `dir` is the cursor's directory and `position` how many
/// of its entries it has yielded. A cursor that lists no fixed tree (a live
/// filesystem, which may change under the walk) leaves `lists_fixed_tree`
/// false, and nothing below is said of it.
pub trait DirectoryCursor: Sized {
    closed spec fn lists_fixed_tree(&self) -> bool {
        false
    }

    closed spec fn tree(&self) -> Map<Seq<Seq<char>>, Seq<(Option<Seq<char>>, FileMetadata)>> {
        Map::empty()
    }

    closed spec fn dir(&self) -> Seq<Seq<char>> {
        Seq::empty()
    }

    closed spec fn position(&self) -> nat {
        0
    }

    /// The next entry in listing order; `None` once the listing is done.
    fn next_entry(&mut self) -> (r: Result<Option<DirectoryEntry>, PortError>)
        ensures
            old(self).lists_fixed_tree() ==> {
                let listing = listing_of(old(self).tree(), old(self).dir());
                &&& final(self).lists_fixed_tree()
                &&& final(self).tree() == old(self).tree()
                &&& final(self).dir() == old(self).dir()
                &&& match r {
                    Ok(Some(e)) => old(self).position() < listing.len()
                        && entry_name(e) == listing[old(self).position() as int].0
                        && final(self).position() == old(self).position() + 1,
                    Ok(None) => old(self).position() >= listing.len() && final(self).position() == old(self).position(),
                    Err(_) => final(self).position() == old(self).position(),
                }
            },
    ;

    /// The metadata of `entry`; for the entry just yielded, the listed one.
    fn read_metadata(&mut self, entry: &DirectoryEntry) -> (r: Result<FileMetadata, PortError>)
        ensures
            old(self).lists_fixed_tree() ==> {
                let listing = listing_of(old(self).tree(), old(self).dir());
                &&& final(self).lists_fixed_tree()
                &&& final(self).tree() == old(self).tree()
                &&& final(self).dir() == old(self).dir()
                &&& final(self).position() == old(self).position()
                &&& (0 < old(self).position() <= listing.len()
                    && entry_name(*entry) == listing[old(self).position() - 1].0 ==> match r {
                        Ok(m) => m == listing[old(self).position() - 1].1,
                        Err(e) => e != PortError::ReparsePoint,
                    })
            },
    ;

    /// Opens the directory `entry`; for the entry just yielded, a cursor at
    /// the start of its listing in the same tree.
    fn open_directory(&mut self, entry: &DirectoryEntry) -> (r: Result<OpenedDirectory<Self>, PortError>)
        ensures
            old(self).lists_fixed_tree() ==> {
                let listing = listing_of(old(self).tree(), old(self).dir());
                &&& final(self).lists_fixed_tree()
                &&& final(self).tree() == old(self).tree()
                &&& final(self).dir() == old(self).dir()
                &&& final(self).position() == old(self).position()
                &&& (0 < old(self).position() <= listing.len()
                    && entry_name(*entry) == listing[old(self).position() - 1].0
                    && entry_name(*entry) is Some ==> match r {
                        Ok(o) => o.cursor.lists_fixed_tree() && o.cursor.tree() == old(self).tree()
                            && o.cursor.dir() == old(self).dir().push(entry_name(*entry)->0)
                            && o.cursor.position() == 0,
                        Err(_) => true,
                    })
            },
    ;
}

/// The entries listed for `dir` in `tree`; none for a directory it lacks.
pub open spec fn listing_of(
    tree: Map<Seq<Seq<char>>, Seq<(Option<Seq<char>>, FileMetadata)>>,
    dir: Seq<Seq<char>>,
) -> Seq<(Option<Seq<char>>, FileMetadata)> {
    if tree.contains_key(dir) { tree[dir] } else { Seq::empty() }
}

/// The name of an entry, as text.
pub open spec fn entry_name(e: DirectoryEntry) -> Option<Seq<char>> {
    match e.name {
        Some(n) => Some(n@),
        None => None,
    }
}


/// A directory handle plus its metadata and case-mode decision.
pub struct OpenedDirectory<C> {
    pub metadata: FileMetadata,
    pub case_sensitivity: DirectoryCaseSensitivity,
    pub cursor: C,
}

/// The only filesystem authority the enumerator needs.
pub trait FilesystemPort {
    type Cursor: DirectoryCursor;

    /// The roots the port has been asked to inspect or open, in order. An
    /// implementation defines it as the record it keeps of those calls; the
    /// default (no record) meets none of the contracts below.
    closed spec fn roots_asked(&self) -> Seq<Seq<char>> {
        Seq::empty()
    }

    /// Whether the port lists a fixed tree (see `DirectoryCursor`), and
    /// that tree. A port over a live filesystem leaves this false.
    closed spec fn lists_fixed_tree(&self) -> bool {
        false
    }

    closed spec fn tree(&self) -> Map<Seq<Seq<char>>, Seq<(Option<Seq<char>>, FileMetadata)>> {
        Map::empty()
    }

    fn inspect_root(&mut self, root: &str) -> (r: Result<RootMetadata, PortError>)
        ensures
            final(self).roots_asked() == old(self).roots_asked().push(root@),
            old(self).lists_fixed_tree() ==> final(self).lists_fixed_tree() && final(self).tree() == old(self).tree(),
    ;

    /// Opens the root; over a fixed tree, a cursor at the start of the
    /// root's listing.
    fn open_root(&mut self, root: &str) -> (r: Result<OpenedDirectory<Self::Cursor>, PortError>)
        ensures
            final(self).roots_asked() == old(self).roots_asked().push(root@),
            old(self).lists_fixed_tree() ==> final(self).lists_fixed_tree() && final(self).tree() == old(self).tree()
                && match r {
                    Ok(o) => o.cursor.lists_fixed_tree() && o.cursor.tree() == old(self).tree()
                        && o.cursor.dir() == Seq::<Seq<char>>::empty() && o.cursor.position() == 0,
                    Err(_) => true,
                },
    ;
}

/// The storage/publication owner implements this with run-scoped staging.
pub trait BatchSink {
    /// How many times the sink has been told to discard its run. An
    /// implementation defines it, and `offered`, as the record it keeps of
    /// the calls below; the defaults (no record) meet none of their
    /// contracts.
    closed spec fn discards(&self) -> nat {
        0
    }

    /// The batches handed to the sink so far, in order, each with whether
    /// the sink accepted it.
    closed spec fn offered(&self) -> Seq<(ObservationBatch, bool)> {
        Seq::empty()
    }

    fn accept(&mut self, batch: ObservationBatch) -> (r: Result<(), SinkError>)
        ensures
            final(self).discards() == old(self).discards(),
            final(self).offered() == old(self).offered().push((batch, r is Ok)),
    ;

    /// Discard all batches accepted for the current run. The enumerator
    /// calls this exactly once for every non-authoritative outcome.
    fn discard(&mut self)
        ensures
            final(self).discards() == old(self).discards() + 1,
            final(self).offered() == old(self).offered(),
    ;
}

/// Provisional storage for one enumeration run. A complete run remains
/// staged for the publication owner; every other outcome is invalidated
/// before the report is returned.
pub trait RunScopedStorage {
    /// The runs invalidated so far, in order. An implementation defines
    /// it, and `staging_log`, as the record it keeps of the calls below; the
    /// defaults (no record) meet none of their contracts.
    closed spec fn invalidated_runs(&self) -> Seq<Seq<char>> {
        Seq::empty()
    }

    /// The batches handed to `stage_batch` so far, in order, each with the
    /// run it was staged under and whether the storage staged it.
    closed spec fn staging_log(&self) -> Seq<(Seq<char>, ObservationBatch, bool)> {
        Seq::empty()
    }

    fn stage_batch(&mut self, run_id: &str, batch: ObservationBatch) -> (r: Result<(), SinkError>)
        ensures
            final(self).invalidated_runs() == old(self).invalidated_runs(),
            final(self).staging_log() == old(self).staging_log().push((run_id@, batch, r is Ok)),
    ;

    fn invalidate_run(&mut self, run_id: &str)
        ensures
            final(self).invalidated_runs() == old(self).invalidated_runs().push(run_id@),
            final(self).staging_log() == old(self).staging_log(),
    ;
}

/// Adapts run-ID staging and invalidation to the enumerator's batch sink. It
/// has no commit method: the storage publication transaction owns the final
/// generation/lease/cancellation fence. Dropping it does not invalidate the
/// run; a caller that abandons a run invalidates it itself (the enumerator
/// does so for every non-authoritative outcome before it returns).
pub struct RunScopedSinkAdapter<'a, S> {
    storage: &'a mut S,
    run_id: String,
}

impl<'a, S> RunScopedSinkAdapter<'a, S> {
    pub fn new(storage: &'a mut S, run_id: &str) -> (r: Self)
        ensures
            r.run_id()@ == run_id@,
    {
        RunScopedSinkAdapter { storage, run_id: run_id.to_owned() }
    }

    pub closed spec fn run_id(&self) -> String {
        self.run_id
    }

    /// Ends the adapter's use without invalidating the run: a complete run
    /// stays staged for the publication owner.
    pub fn release(self) {
    }
}

impl<'a, S: RunScopedStorage> RunScopedSinkAdapter<'a, S> {
    /// The runs invalidated in the storage the adapter stages into.
    pub closed spec fn storage_invalidated(&self) -> Seq<Seq<char>> {
        self.storage.invalidated_runs()
    }

    /// The staging log of the storage the adapter stages into.
    pub closed spec fn storage_log(&self) -> Seq<(Seq<char>, ObservationBatch, bool)> {
        self.storage.staging_log()
    }
}

impl<'a, S: RunScopedStorage> BatchSink for RunScopedSinkAdapter<'a, S> {
    open spec fn discards(&self) -> nat {
        self.storage_invalidated().len()
    }

    open spec fn offered(&self) -> Seq<(ObservationBatch, bool)> {
        self.storage_log().map_values(|e: (Seq<char>, ObservationBatch, bool)| (e.1, e.2))
    }

    fn accept(&mut self, batch: ObservationBatch) -> (r: Result<(), SinkError>) {
        let r = self.storage.stage_batch(self.run_id.as_str(), batch);
        assert(self.storage_log().map_values(|e: (Seq<char>, ObservationBatch, bool)| (e.1, e.2))
            =~= old(self).storage_log().map_values(|e: (Seq<char>, ObservationBatch, bool)| (e.1, e.2)).push((batch, r is Ok)));
        r
    }

    fn discard(&mut self) {
        self.storage.invalidate_run(self.run_id.as_str());
    }
}

#[derive(Clone, Copy, Debug, PartialEq, Eq, Structural)]
pub enum SinkError {
    ResourceLimit,
    Unavailable,
    Rejected,
}

#[derive(Clone, Copy, Debug, PartialEq, Eq, Structural)]
pub struct ProgressUpdate {
    pub directories_visited: usize,
    pub entries_examined: usize,
    pub observations_discovered: usize,
    pub final_update: bool,
    pub outcome: Option<Outcome>,
}

pub trait ProgressSink {
    /// The updates reported so far, for a sink that records them.
    closed spec fn reported(&self) -> Seq<ProgressUpdate> {
        Seq::empty()
    }

    /// Whether `reported` records every update. A sink that keeps no record
    /// leaves this false, and nothing said of `reported` then holds of it.
    closed spec fn records_reports(&self) -> bool {
        false
    }

    fn report(&mut self, update: ProgressUpdate)
        ensures
            final(self).records_reports() == old(self).records_reports(),
            old(self).records_reports() ==> final(self).reported() == old(self).reported().push(update),
    ;
}

pub struct NoProgress;

impl ProgressSink for NoProgress {
    fn report(&mut self, update: ProgressUpdate) {
    }
}

#[derive(Clone, Debug, PartialEq, Eq)]
pub struct Observation {
    pub locator: NormalizedLocator,
    pub display_path: DisplayRelativePath,
    pub byte_size: u64,
    pub modified_unix_ns: i128,
    pub identity: Option<QualifiedIdentity>,
}

/// The staging size of an observation: its two path strings (UTF-8 bytes),
/// the size and time fields, and the identity when present.
pub open spec fn observation_bytes(locator_bytes: nat, display_bytes: nat, has_identity: bool) -> nat {
    locator_bytes + display_bytes + 8 + 16 + if has_identity { 24nat } else { 0nat }
}

pub open spec fn saturate_usize(v: nat) -> usize {
    if v > usize::MAX { usize::MAX } else { v as usize }
}

impl Observation {
    pub closed spec fn locator_bytes(&self) -> nat {
        (vstd::utf8::encode_utf8(self.locator@).len() as usize) as nat
    }

    pub closed spec fn display_bytes(&self) -> nat {
        (vstd::utf8::encode_utf8(self.display_path@).len() as usize) as nat
    }

    /// The estimated staging size, saturating at `usize::MAX`.
    pub fn estimated_bytes(&self) -> (r: usize)
        ensures
            r == saturate_usize(observation_bytes(self.locator_bytes(), self.display_bytes(), self.identity is Some)),
    {
        let identity_bytes: usize = match self.identity {
            Some(_) => 24,
            None => 0,
        };
        let a = self.locator.as_str().len();
        let b = self.display_path.as_str().len();
        let r1 = a.saturating_add(b);
        let r2 = r1.saturating_add(8);
        let r3 = r2.saturating_add(16);
        let r4 = r3.saturating_add(identity_bytes);
        assert(r4 == saturate_usize((a + b + 8 + 16 + identity_bytes) as nat));
        r4
    }
}

#[derive(Clone, Debug, PartialEq, Eq)]
pub struct ObservationBatch {
    pub sequence: u64,
    pub records: Vec<Observation>,
    pub estimated_bytes: usize,
}

#[derive(Clone, Copy, Debug, PartialEq, Eq, Structural)]
pub enum ExclusionReason {
    ReparsePoint,
    UnsupportedEntryType,
}

#[derive(Clone, Debug, PartialEq, Eq)]
pub struct PolicyExclusion {
    pub display_path: DisplayRelativePath,
    pub reason: ExclusionReason,
}

#[derive(Clone, Copy, Debug, PartialEq, Eq, Structural)]
pub enum CoverageFailureKind {
    InvalidRoot,
    InvalidLimits,
    UnsupportedFilesystem,
    RootNotFound,
    RootDenied,
    RootChanged,
    RootIdentityUnavailable,
    DirectoryNotFound,
    DirectoryDenied,
    DirectoryRead,
    DirectoryChanged,
    DirectoryIdentityUnavailable,
    EntryDisappeared,
    EntryDenied,
    MetadataRead,
    InvalidEntryName,
    DuplicateLocator,
}

/// The outcome a coverage failure of this kind brings to a run.
pub open spec fn kind_outcome(kind: CoverageFailureKind) -> Outcome {
    match kind {
        CoverageFailureKind::InvalidRoot | CoverageFailureKind::InvalidLimits | CoverageFailureKind::InvalidEntryName
        | CoverageFailureKind::DuplicateLocator => Outcome::Invalid,
        CoverageFailureKind::UnsupportedFilesystem => Outcome::UnsupportedFilesystem,
        CoverageFailureKind::RootNotFound | CoverageFailureKind::RootChanged => Outcome::RootUnavailable,
        CoverageFailureKind::RootDenied | CoverageFailureKind::DirectoryDenied | CoverageFailureKind::EntryDenied => Outcome::Denied,
        _ => Outcome::Partial,
    }
}

#[derive(Clone, Debug, PartialEq, Eq)]
pub struct CoverageFailure {
    pub display_path: Option<DisplayRelativePath>,
    pub kind: CoverageFailureKind,
}

#[derive(Clone, Copy, Debug, PartialEq, Eq, Structural)]
pub enum Outcome {
    Complete,
    Partial,
    Denied,
    RootUnavailable,
    Cancelled,
    ResourceLimit,
    SinkFailed,
    Invalid,
    UnsupportedFilesystem,
}

impl Outcome {
    /// Only a complete run is authoritative.
    pub fn is_authoritative(self) -> (r: bool)
        ensures
            r == (self == Outcome::Complete),
    {
        match self {
            Outcome::Complete => true,
            _ => false,
        }
    }
}

/// The severity rank under which outcomes combine: the more severe wins.
pub open spec fn outcome_rank(o: Outcome) -> int {
    match o {
        Outcome::Complete => 0,
        Outcome::Partial => 1,
        Outcome::Denied => 2,
        Outcome::UnsupportedFilesystem => 3,
        Outcome::RootUnavailable => 4,
        Outcome::Invalid => 5,
        Outcome::SinkFailed => 6,
        Outcome::ResourceLimit => 7,
        Outcome::Cancelled => 8,
    }
}

fn rank(o: Outcome) -> (r: u8)
    ensures
        r == outcome_rank(o),
{
    match o {
        Outcome::Complete => 0,
        Outcome::Partial => 1,
        Outcome::Denied => 2,
        Outcome::UnsupportedFilesystem => 3,
        Outcome::RootUnavailable => 4,
        Outcome::Invalid => 5,
        Outcome::SinkFailed => 6,
        Outcome::ResourceLimit => 7,
        Outcome::Cancelled => 8,
    }
}

pub open spec fn combine_spec(current: Option<Outcome>, next: Outcome) -> Outcome {
    match current {
        None => next,
        Some(c) => if outcome_rank(next) > outcome_rank(c) { next } else { c },
    }
}

/// Combines the status so far with a new outcome: the more severe wins, and
/// the first of two equally severe ones stays.
pub fn combine_outcomes(current: Option<Outcome>, next: Outcome) -> (r: Outcome)
    ensures
        r == combine_spec(current, next),
{
    match current {
        None => next,
        Some(c) => if rank(next) > rank(c) { next } else { c },
    }
}

/// Combining outcomes never lowers severity: the result is at least as
/// severe as both the status so far and the new outcome, and it is one of
/// the two.
pub proof fn law_combine_never_lowers_severity(current: Outcome, next: Outcome)
    ensures
        outcome_rank(combine_spec(Some(current), next)) >= outcome_rank(current),
        outcome_rank(combine_spec(Some(current), next)) >= outcome_rank(next),
        combine_spec(Some(current), next) == current || combine_spec(Some(current), next) == next,
        combine_spec(Some(current), next) != Outcome::Complete || (current == Outcome::Complete && next == Outcome::Complete),
{
}

#[derive(Clone, Debug, PartialEq, Eq)]
pub struct EnumerationReport {
    pub outcome: Outcome,
    pub authoritative: bool,
    pub root_qualification: Option<FilesystemQualification>,
    pub directories_visited: usize,
    pub entries_examined: usize,
    pub observations_discovered: usize,
    pub batches_delivered: usize,
    pub identity_unavailable: usize,
    pub exclusions: Vec<PolicyExclusion>,
    pub omitted_exclusions: usize,
    pub coverage_failures: Vec<CoverageFailure>,
    pub omitted_coverage_failures: usize,
}

impl EnumerationReport {
    /// An empty, non-authoritative report.
    pub fn new() -> (r: Self)
        ensures
            r.outcome == Outcome::Invalid,
            !r.authoritative,
            r.root_qualification is None,
            r.directories_visited == 0,
            r.entries_examined == 0,
            r.observations_discovered == 0,
            r.batches_delivered == 0,
            r.identity_unavailable == 0,
            r.exclusions@.len() == 0,
            r.omitted_exclusions == 0,
            r.coverage_failures@.len() == 0,
            r.omitted_coverage_failures == 0,
    {
        EnumerationReport {
            outcome: Outcome::Invalid,
            authoritative: false,
            root_qualification: None,
            directories_visited: 0,
            entries_examined: 0,
            observations_discovered: 0,
            batches_delivered: 0,
            identity_unavailable: 0,
            exclusions: Vec::new(),
            omitted_exclusions: 0,
            coverage_failures: Vec::new(),
            omitted_coverage_failures: 0,
        }
    }
}

/// Resource limits of one enumeration. `progress_interval` throttles
/// progress updates.
#[derive(Clone, Copy, Debug, PartialEq, Eq)]
pub struct EnumerationLimits {
    pub max_directories: usize,
    pub max_pending_directories: usize,
    pub max_pending_path_bytes: usize,
    pub max_entries: usize,
    pub max_observations: usize,
    pub max_path_bytes: usize,
    pub max_total_path_bytes: usize,
    pub max_diagnostics: usize,
    pub max_exclusions: usize,
    pub max_batch_records: usize,
    pub max_batch_bytes: usize,
    pub max_batches: usize,
    pub progress_interval: Duration,
}

impl Default for EnumerationLimits {
    fn default() -> (r: Self)
        ensures
            r.max_directories == 100_000,
            r.max_pending_directories == 4_096,
            r.max_pending_path_bytes == 4 * 1024 * 1024,
            r.max_entries == 1_000_000,
            r.max_observations == 100_000,
            r.max_path_bytes == 32 * 1024,
            r.max_total_path_bytes == 64 * 1024 * 1024,
            r.max_diagnostics == 256,
            r.max_exclusions == 256,
            r.max_batch_records == HARD_MAX_BATCH_RECORDS,
            r.max_batch_bytes == HARD_MAX_BATCH_BYTES,
            r.max_batches == 200_000,
    {
        EnumerationLimits {
            max_directories: 100_000,
            max_pending_directories: 4_096,
            max_pending_path_bytes: 4 * 1024 * 1024,
            max_entries: 1_000_000,
            max_observations: 100_000,
            max_path_bytes: 32 * 1024,
            max_total_path_bytes: 64 * 1024 * 1024,
            max_diagnostics: 256,
            max_exclusions: 256,
            max_batch_records: HARD_MAX_BATCH_RECORDS,
            max_batch_bytes: HARD_MAX_BATCH_BYTES,
            max_batches: 200_000,
            progress_interval: time::millis(250),
        }
    }
}

/// Every bound is positive and the batch bounds stay within the hard ones.
pub open spec fn limits_valid(l: &EnumerationLimits) -> bool {
    &&& l.max_directories > 0
    &&& l.max_pending_directories > 0
    &&& l.max_pending_path_bytes > 0
    &&& l.max_entries > 0
    &&& l.max_observations > 0
    &&& l.max_path_bytes > 0
    &&& l.max_total_path_bytes > 0
    &&& 0 < l.max_batch_records <= HARD_MAX_BATCH_RECORDS
    &&& 0 < l.max_batch_bytes <= HARD_MAX_BATCH_BYTES
    &&& l.max_batches > 0
}

impl EnumerationLimits {
    pub fn validate(&self) -> (r: Result<(), ()>)
        ensures
            r is Ok <==> limits_valid(self),
    {
        if self.max_directories == 0 || self.max_pending_directories == 0 || self.max_pending_path_bytes == 0
            || self.max_entries == 0 || self.max_observations == 0 || self.max_path_bytes == 0
            || self.max_total_path_bytes == 0 || self.max_batch_records == 0
            || self.max_batch_records > HARD_MAX_BATCH_RECORDS || self.max_batch_bytes == 0
            || self.max_batch_bytes > HARD_MAX_BATCH_BYTES || self.max_batches == 0 {
            return Err(());
        }
        Ok(())
    }
}

} // verus!
