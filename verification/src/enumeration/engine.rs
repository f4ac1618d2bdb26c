//! The enumeration engine: a depth-first walk over opened directory handles
//! that stages file observations in bounded batches and reports coverage.
use vstd::prelude::*;
use std::time::Instant;

use super::cancel::Cancellation;
use super::paths::{
    entry_name_error, normalize_spec,    lemma_joined_flp_path,
    is_flp_name, is_flp_spec, normalize_relative_path, validate_entry_name, DisplayRelativePath, PathError,
};
use super::{
    combine_outcomes, combine_spec, entry_name, kind_outcome, outcome_rank, limits_valid, listing_of, BatchSink, CoverageFailure, CoverageFailureKind,
    DirectoryCaseSensitivity, DirectoryCursor, EntryKind, EnumerationLimits,
    EnumerationReport, ExclusionReason, FileMetadata, FilesystemPort, FilesystemQualification,
    Observation, ObservationBatch, OpenedDirectory, Outcome, PolicyExclusion, PortError, ProgressSink,
    ProgressUpdate, QualifiedIdentity, RootMetadata, RunScopedStorage, SinkError,
};
use crate::text::{chars_of, push_char, KeySet};
use vstd::utf8::encode_utf8;

verus! {

pub open spec fn is_sep(c: char) -> bool {
    c == '/' || c == '\\'
}

/// An absolute Windows root: a drive with its root directory (`X:\`), or a
/// UNC or verbatim path opening with two separators.
pub open spec fn is_absolute_root(s: Seq<char>) -> bool {
    ||| (s.len() >= 3 && super::paths::is_ascii_letter(s[0]) && s[1] == ':' && is_sep(s[2]))
    ||| (s.len() >= 2 && is_sep(s[0]) && is_sep(s[1]))
}

/// A `..` part of `s` starts at `i`.
pub open spec fn parent_part_at(s: Seq<char>, i: int) -> bool {
    &&& 0 <= i
    &&& i + 2 <= s.len()
    &&& (i == 0 || is_sep(s[i - 1]))
    &&& s[i] == '.'
    &&& s[i + 1] == '.'
    &&& (i + 2 == s.len() || is_sep(s[i + 2]))
}

/// `s` holds a `..` part.
pub open spec fn has_parent_part(s: Seq<char>) -> bool {
    exists|i: int| parent_part_at(s, i)
}

/// Why a root path is refused, checking in a fixed order; `None` when it
/// is acceptable.
pub open spec fn root_path_error(root: Seq<char>, max_path_bytes: usize) -> Option<PathError> {
    if !is_absolute_root(root) {
        Some(PathError::Absolute)
    } else if has_parent_part(root) {
        Some(PathError::ParentTraversal)
    } else if (encode_utf8(root).len() as usize) > max_path_bytes {
        Some(PathError::InvalidComponent)
    } else {
        None
    }
}

fn is_separator(c: char) -> (r: bool)
    ensures
        r == is_sep(c),
{
    c == '/' || c == '\\'
}

/// Checks the root path.
pub fn validate_root_path(root: &str, max_path_bytes: usize) -> (r: Result<(), PathError>)
    ensures
        match r {
            Ok(()) => root_path_error(root@, max_path_bytes) is None,
            Err(e) => root_path_error(root@, max_path_bytes) == Some(e),
        },
{
    let chars = chars_of(root);
    let n = chars.len();
    let drive = n >= 3 && (('a' <= chars[0] && chars[0] <= 'z') || ('A' <= chars[0] && chars[0] <= 'Z'))
        && chars[1] == ':' && is_separator(chars[2]);
    let unc = n >= 2 && is_separator(chars[0]) && is_separator(chars[1]);
    if !drive && !unc {
        return Err(PathError::Absolute);
    }
    let mut i: usize = 0;
    while i < n
        invariant
            n == chars@.len(),
            chars@ == root@,
            i <= n,
            is_absolute_root(root@),
            forall|k: int| 0 <= k < i ==> !#[trigger] parent_part_at(chars@, k),
        decreases n - i,
    {
        if n - i >= 2 && (i == 0 || is_separator(chars[i - 1])) && chars[i] == '.' && chars[i + 1] == '.'
            && (n - i == 2 || is_separator(chars[i + 2])) {
            assert(parent_part_at(chars@, i as int));
            return Err(PathError::ParentTraversal);
        }
        i = i + 1;
    }
    proof {
        assert forall|k: int| !#[trigger] parent_part_at(chars@, k) by {
            if parent_part_at(chars@, k) {
                assert(k < i);
            }
        }
    }
    if root.len() > max_path_bytes {
        return Err(PathError::InvalidComponent);
    }
    Ok(())
}

/// The canonical form of one locator-key component: its case mode, the
/// value (ASCII-lowercased where the directory is case-insensitive) and a
/// NUL terminator, which no valid name holds.
pub open spec fn key_component(value: Seq<char>, sensitivity: DirectoryCaseSensitivity) -> Seq<char> {
    match sensitivity {
        DirectoryCaseSensitivity::Sensitive => seq!['s'] + value + seq!['\0'],
        DirectoryCaseSensitivity::Insensitive => seq!['i'] + value.map_values(|c: char| super::paths::ascii_lower(c)) + seq!['\0'],
    }
}

/// The name as the duplicate check compares it in a directory of the given
/// case mode.
pub open spec fn compared_name(value: Seq<char>, sensitivity: DirectoryCaseSensitivity) -> Seq<char> {
    match sensitivity {
        DirectoryCaseSensitivity::Sensitive => value,
        DirectoryCaseSensitivity::Insensitive => value.map_values(|c: char| super::paths::ascii_lower(c)),
    }
}

/// Two entries of one directory get the same locator key exactly when
/// their names are equal, ignoring ASCII case where the directory is
/// case-insensitive: case-only aliases collide there and stay distinct in a
/// case-sensitive directory.
pub proof fn law_sibling_keys_collide_exactly_on_equal_names(
    parent: Seq<char>,
    a: Seq<char>,
    b: Seq<char>,
    sensitivity: DirectoryCaseSensitivity,
)
    ensures
        (parent + key_component(a, sensitivity) == parent + key_component(b, sensitivity))
            <==> compared_name(a, sensitivity) == compared_name(b, sensitivity),
{
    let ka = key_component(a, sensitivity);
    let kb = key_component(b, sensitivity);
    let na = compared_name(a, sensitivity);
    let nb = compared_name(b, sensitivity);
    let mode = match sensitivity {
        DirectoryCaseSensitivity::Sensitive => 's',
        DirectoryCaseSensitivity::Insensitive => 'i',
    };
    assert(ka =~= seq![mode] + na + seq!['\0']);
    assert(kb =~= seq![mode] + nb + seq!['\0']);
    if parent + ka == parent + kb {
        assert(ka =~= (parent + ka).subrange(parent.len() as int, (parent + ka).len() as int));
        assert(kb =~= (parent + kb).subrange(parent.len() as int, (parent + kb).len() as int));
        assert(na =~= ka.subrange(1, ka.len() - 1));
        assert(nb =~= kb.subrange(1, kb.len() - 1));
    }
}

fn ascii_lower(c: char) -> (r: char)
    ensures
        r == super::paths::ascii_lower(c),
{
    if 'A' <= c && c <= 'Z' {
        let u = c as u32 + 32;
        let r = if u == 97 { 'a' } else if u == 98 { 'b' } else if u == 99 { 'c' } else if u == 100 { 'd' }
            else if u == 101 { 'e' } else if u == 102 { 'f' } else if u == 103 { 'g' } else if u == 104 { 'h' }
            else if u == 105 { 'i' } else if u == 106 { 'j' } else if u == 107 { 'k' } else if u == 108 { 'l' }
            else if u == 109 { 'm' } else if u == 110 { 'n' } else if u == 111 { 'o' } else if u == 112 { 'p' }
            else if u == 113 { 'q' } else if u == 114 { 'r' } else if u == 115 { 's' } else if u == 116 { 't' }
            else if u == 117 { 'u' } else if u == 118 { 'v' } else if u == 119 { 'w' } else if u == 120 { 'x' }
            else if u == 121 { 'y' } else { 'z' };
        r
    } else {
        c
    }
}

/// The key of a child: the parent key followed by the child's component.
fn child_key(parent: &Vec<char>, value: &str, sensitivity: DirectoryCaseSensitivity) -> (r: Vec<char>)
    ensures
        r@ == parent@ + key_component(value@, sensitivity),
{
    let chars = chars_of(value);
    let mut r: Vec<char> = Vec::new();
    let mut i: usize = 0;
    while i < parent.len()
        invariant
            i <= parent.len(),
            r@ == parent@.subrange(0, i as int),
        decreases parent.len() - i,
    {
        r.push(parent[i]);
        i = i + 1;
        assert(r@ =~= parent@.subrange(0, i as int));
    }
    assert(parent@.subrange(0, parent@.len() as int) =~= parent@);
    let insensitive = match sensitivity {
        DirectoryCaseSensitivity::Sensitive => false,
        DirectoryCaseSensitivity::Insensitive => true,
    };
    r.push(if insensitive { 'i' } else { 's' });
    let ghost base = r@;
    let mut j: usize = 0;
    while j < chars.len()
        invariant
            j <= chars@.len(),
            r@ == base + (if insensitive {
                chars@.subrange(0, j as int).map_values(|c: char| super::paths::ascii_lower(c))
            } else {
                chars@.subrange(0, j as int)
            }),
        decreases chars.len() - j,
    {
        let c = chars[j];
        r.push(if insensitive { ascii_lower(c) } else { c });
        proof {
            assert(chars@.subrange(0, j + 1) =~= chars@.subrange(0, j as int).push(c));
            assert(chars@.subrange(0, j + 1).map_values(|c: char| super::paths::ascii_lower(c))
                =~= chars@.subrange(0, j as int).map_values(|c: char| super::paths::ascii_lower(c)).push(super::paths::ascii_lower(c)));
        }
        j = j + 1;
        assert(r@ =~= base + (if insensitive {
            chars@.subrange(0, j as int).map_values(|c: char| super::paths::ascii_lower(c))
        } else {
            chars@.subrange(0, j as int)
        }));
    }
    r.push('\0');
    proof {
        assert(chars@.subrange(0, chars@.len() as int) =~= chars@);
        assert(r@ =~= parent@ + key_component(value@, sensitivity));
    }
    r
}

/// What the walk does with a directory entry once its metadata is read.
#[derive(Clone, Copy, Debug, PartialEq, Eq, Structural)]
pub enum EntryAction {
    /// A directory: opened through the cursor and walked.
    Descend,
    /// An `.flp` file: staged as an observation.
    Observe,
    /// A file without the `.flp` extension: passed over.
    Skip,
    /// Left out of the walk and reported as an exclusion.
    Exclude(ExclusionReason),
    /// A directory that is a reparse point when its metadata is read was
    /// swapped under the walk: its subtree is not covered.
    Changed,
}

/// The action for an entry named `name` with the given kind and reparse
/// flag.
pub open spec fn entry_action_spec(name: Seq<char>, kind: EntryKind, reparse_point: bool) -> EntryAction {
    if reparse_point {
        match kind {
            EntryKind::Directory => EntryAction::Changed,
            _ => EntryAction::Exclude(ExclusionReason::ReparsePoint),
        }
    } else {
        match kind {
            EntryKind::Directory => EntryAction::Descend,
            EntryKind::Other => EntryAction::Exclude(ExclusionReason::UnsupportedEntryType),
            EntryKind::File => if is_flp_spec(name) {
                EntryAction::Observe
            } else {
                EntryAction::Skip
            },
        }
    }
}

/// Decides what the walk does with the entry `name` from its metadata.
pub fn entry_action(name: &str, metadata: &FileMetadata) -> (r: EntryAction)
    ensures
        r == entry_action_spec(name@, metadata.kind, metadata.reparse_point),
{
    if metadata.reparse_point {
        match metadata.kind {
            EntryKind::Directory => EntryAction::Changed,
            _ => EntryAction::Exclude(ExclusionReason::ReparsePoint),
        }
    } else {
        match metadata.kind {
            EntryKind::Directory => EntryAction::Descend,
            EntryKind::Other => EntryAction::Exclude(ExclusionReason::UnsupportedEntryType),
            EntryKind::File => if is_flp_name(name) {
                EntryAction::Observe
            } else {
                EntryAction::Skip
            },
        }
    }
}

/// What the walk asked of the port: only about `root` and after what it
/// was asked before; nothing when the limits or the root are refused; at
/// least once otherwise, unless it was cancelled; and three times (inspect,
/// open, inspect again) for a complete run.
pub open spec fn root_requests(
    asked: Seq<Seq<char>>,
    before: Seq<Seq<char>>,
    root: Seq<char>,
    limits: EnumerationLimits,
    outcome: Outcome,
) -> bool {
    &&& before.len() <= asked.len()
    &&& forall|i: int| 0 <= i < before.len() ==> #[trigger] asked[i] == before[i]
    &&& forall|i: int| before.len() <= i < asked.len() ==> #[trigger] asked[i] == root
    &&& (!limits_valid(&limits) || root_path_error(root, limits.max_path_bytes) is Some ==> asked.len() == before.len())
    &&& (limits_valid(&limits) && root_path_error(root, limits.max_path_bytes) is None && outcome != Outcome::Cancelled
        ==> asked.len() > before.len())
    &&& (outcome == Outcome::Complete ==> asked.len() == before.len() + 3)
}

/// One directory waiting to be walked.
struct DirectoryWork<C> {
    /// Its display path; `None` for the root.
    relative: Option<DisplayRelativePath>,
    path_bytes: usize,
    key: Vec<char>,
    opened: OpenedDirectory<C>,
}

/// The engine's state for one run.
struct EngineState<C> {
    report: EnumerationReport,
    seen: KeySet,
    stack: Vec<DirectoryWork<C>>,
    pending: Vec<Observation>,
    pending_bytes: usize,
    pending_path_bytes: usize,
    next_batch_sequence: u64,
    path_bytes: usize,
    root_identity: Option<QualifiedIdentity>,
    last_progress: Option<Instant>,
    status: Option<Outcome>,
}

/// The report's bounds under `limits`, and the link between the status and
/// the coverage failures: without a status nothing failed.
pub open spec fn report_bounded(r: EnumerationReport, status: Option<Outcome>, limits: EnumerationLimits) -> bool {
    &&& r.coverage_failures@.len() <= limits.max_diagnostics
    &&& r.exclusions@.len() <= limits.max_exclusions
    &&& r.directories_visited <= limits.max_directories
    &&& r.observations_discovered <= limits.max_observations
    &&& r.batches_delivered <= limits.max_batches
    &&& (status is None ==> r.coverage_failures@.len() == 0 && r.omitted_coverage_failures == 0)
    &&& status != Some(Outcome::Complete)
}

/// The progress update for the counters of `report`.
pub open spec fn progress_update(report: EnumerationReport, final_update: bool, outcome: Option<Outcome>) -> ProgressUpdate {
    ProgressUpdate {
        directories_visited: report.directories_visited,
        entries_examined: report.entries_examined,
        observations_discovered: report.observations_discovered,
        final_update,
        outcome,
    }
}

/// The staging size of an observation, as `Observation::estimated_bytes`
/// computes it.
pub open spec fn staged_size(o: Observation) -> usize {
    super::saturate_usize(super::observation_bytes(o.locator_bytes(), o.display_bytes(), o.identity is Some))
}

/// A batch handed to the sink as the `i`-th of the run: numbered by its
/// position, never empty, and within the batch bounds.
pub open spec fn batch_ok(b: ObservationBatch, i: int, limits: EnumerationLimits) -> bool {
    &&& b.sequence == i
    &&& 0 < b.records@.len() <= limits.max_batch_records
    &&& b.estimated_bytes <= limits.max_batch_bytes
}

/// The records in `batches`, counted.
pub open spec fn records_in(batches: Seq<(ObservationBatch, bool)>) -> int
    decreases batches.len(),
{
    if batches.len() == 0 {
        0
    } else {
        records_in(batches.drop_last()) + batches.last().0.records@.len()
    }
}

/// What a sink holding `offered` received during a run that began when it
/// held `before`: `before` unchanged, then the run's batches in order, each
/// accepted but perhaps the last (nothing is offered after a refusal), and
/// every record in them an `.flp` path.
pub open spec fn delivered_in_order(
    offered: Seq<(ObservationBatch, bool)>,
    before: Seq<(ObservationBatch, bool)>,
    limits: EnumerationLimits,
) -> bool {
    &&& before.len() <= offered.len()
    &&& offered.subrange(0, before.len() as int) == before
    &&& forall|i: int| before.len() <= i < offered.len() ==> #[trigger] batch_ok(offered[i].0, i - before.len(), limits)
    &&& forall|i: int| before.len() <= i < offered.len() - 1 ==> (#[trigger] offered[i]).1
    &&& forall|i: int, k: int| before.len() <= i < offered.len() && 0 <= k < offered[i].0.records@.len()
        ==> #[trigger] flp_record(offered[i].0.records@[k])
}

/// A record the walk stages: an `.flp` path whose locator is its display
/// path.
pub open spec fn flp_record(o: Observation) -> bool {
    &&& o.locator@ == o.display_path@
    &&& is_flp_spec(o.display_path@)
}

/// The batch `b` was closed before the record `next`: it was full, or
/// `next` did not fit in its byte budget.
pub open spec fn closed_before(b: ObservationBatch, next: Observation, limits: EnumerationLimits) -> bool {
    b.records@.len() == limits.max_batch_records || b.estimated_bytes + staged_size(next) > limits.max_batch_bytes
}

/// The `i`-th batch was closed before the first record of the next one.
pub open spec fn packed_at(offered: Seq<(ObservationBatch, bool)>, i: int, limits: EnumerationLimits) -> bool {
    closed_before(offered[i].0, offered[i + 1].0.records@[0], limits)
}

/// Batches are packed: every batch offered since `before` but the last
/// holds `max_batch_records` records, or the next record did not fit in its
/// byte budget.
pub open spec fn packed(offered: Seq<(ObservationBatch, bool)>, before: Seq<(ObservationBatch, bool)>, limits: EnumerationLimits) -> bool {
    forall|i: int| before.len() <= i < offered.len() - 1 ==> #[trigger] packed_at(offered, i, limits)
}

/// Packed so far, with the last batch closed before the first pending
/// record, or full when nothing is pending.
spec fn packing_ok<C>(st: &EngineState<C>, offered: Seq<(ObservationBatch, bool)>, before: Seq<(ObservationBatch, bool)>, limits: EnumerationLimits) -> bool {
    &&& packed(offered, before, limits)
    &&& (offered.len() > before.len() ==> if st.pending@.len() > 0 {
            closed_before(offered.last().0, st.pending@[0], limits)
        } else {
            offered.last().0.records@.len() == limits.max_batch_records
        })
}

/// Every batch offered since `before` was accepted.
pub open spec fn all_accepted(offered: Seq<(ObservationBatch, bool)>, before: Seq<(ObservationBatch, bool)>) -> bool {
    forall|i: int| before.len() <= i < offered.len() ==> (#[trigger] offered[i]).1
}

/// The batches of a delivery log, each with whether it was taken.
pub open spec fn handed(d: Seq<(Seq<char>, ObservationBatch, bool)>) -> Seq<(ObservationBatch, bool)> {
    d.map_values(|e: (Seq<char>, ObservationBatch, bool)| (e.1, e.2))
}

/// The delivery log `d` keeps `d0` and adds only deliveries under `run`.
pub open spec fn extends_under(
    d: Seq<(Seq<char>, ObservationBatch, bool)>,
    d0: Seq<(Seq<char>, ObservationBatch, bool)>,
    run: Seq<char>,
) -> bool {
    &&& d0.len() <= d.len()
    &&& forall|i: int| 0 <= i < d0.len() ==> #[trigger] d[i] == d0[i]
    &&& forall|i: int| d0.len() <= i < d.len() ==> (#[trigger] d[i]).0 == run
}

/// The sink has been offered exactly the delivered batches, all accepted,
/// and every observation discovered is in one of them or still pending.
spec fn in_step<C>(st: &EngineState<C>, offered: Seq<(ObservationBatch, bool)>, before: Seq<(ObservationBatch, bool)>) -> bool {
    &&& offered.len() == before.len() + st.report.batches_delivered
    &&& all_accepted(offered, before)
    &&& records_in(offered.subrange(before.len() as int, offered.len() as int)) + st.pending@.len() == st.report.observations_discovered
}

/// What a record says: its display path, size, modification time and
/// identity.
pub open spec fn record_view(o: Observation) -> (Seq<char>, u64, i128, Option<QualifiedIdentity>) {
    (o.display_path@, o.byte_size, o.modified_unix_ns, o.identity)
}

/// The records of `batches`, in order.
pub open spec fn records_of(batches: Seq<(ObservationBatch, bool)>) -> Seq<(Seq<char>, u64, i128, Option<QualifiedIdentity>)>
    decreases batches.len(),
{
    if batches.len() == 0 {
        Seq::empty()
    } else {
        records_of(batches.drop_last()) + batches.last().0.records@.map_values(|o: Observation| record_view(o))
    }
}

/// The records delivered since `before`, then the pending ones, are those
/// discovered so far.
spec fn delivered_then_pending<C>(
    st: &EngineState<C>,
    offered: Seq<(ObservationBatch, bool)>,
    before: Seq<(ObservationBatch, bool)>,
) -> Seq<(Seq<char>, u64, i128, Option<QualifiedIdentity>)> {
    records_of(offered.subrange(before.len() as int, offered.len() as int))
        + st.pending@.map_values(|o: Observation| record_view(o))
}

proof fn lemma_records_of_push(batches: Seq<(ObservationBatch, bool)>, b: (ObservationBatch, bool))
    ensures
        records_of(batches.push(b)) == records_of(batches) + b.0.records@.map_values(|o: Observation| record_view(o)),
{
    assert(batches.push(b).drop_last() =~= batches);
}

/// The path of `name` under the display path `parent`, before
/// normalization.
pub open spec fn joined(parent: Option<Seq<char>>, name: Seq<char>) -> Seq<char> {
    match parent {
        None => name,
        Some(p) => p + seq!['\\'] + name,
    }
}

/// What one listed entry of the directory `frame` (its names from the root,
/// its display path, entries read) gives the walk: a record, a directory to
/// walk next, or nothing. Nothing comes of an exclusion, of a file of
/// another kind, and of an entry the walk refuses (a name that is not valid
/// Unicode, not a valid entry name or not normalizable), which makes the
/// run non-authoritative.
pub open spec fn entry_effect(
    frame: (Seq<Seq<char>>, Option<Seq<char>>, nat),
    name: Option<Seq<char>>,
    metadata: FileMetadata,
) -> (Option<(Seq<char>, u64, i128, Option<QualifiedIdentity>)>, Option<(Seq<Seq<char>>, Option<Seq<char>>, nat)>) {
    match name {
        None => (None, None),
        Some(n) => if entry_name_error(n) is Some {
            (None, None)
        } else {
            match normalize_spec(joined(frame.1, n)) {
                Err(_) => (None, None),
                Ok(d) => match entry_action_spec(n, metadata.kind, metadata.reparse_point) {
                    EntryAction::Observe => (Some((d, metadata.byte_size, metadata.modified_unix_ns, metadata.identity)), None),
                    EntryAction::Descend => (None, Some((frame.0.push(n), Some(d), 0nat))),
                    _ => (None, None),
                },
            }
        },
    }
}

/// The directories left to walk after one step: a directory whose listing
/// is read out is done; otherwise its next entry is read, and a directory
/// entry is walked next after the rest of the current one, ahead of those
/// found before it.
pub open spec fn next_frames(
    tree: Map<Seq<Seq<char>>, Seq<(Option<Seq<char>>, FileMetadata)>>,
    frames: Seq<(Seq<Seq<char>>, Option<Seq<char>>, nat)>,
) -> Seq<(Seq<Seq<char>>, Option<Seq<char>>, nat)> {
    let f = frames[0];
    let listing = listing_of(tree, f.0);
    if f.2 >= listing.len() {
        frames.drop_first()
    } else {
        let current = seq![(f.0, f.1, (f.2 + 1) as nat)];
        match entry_effect(f, listing[f.2 as int].0, listing[f.2 as int].1).1 {
            Some(child) => current + seq![child] + frames.drop_first(),
            None => current + frames.drop_first(),
        }
    }
}

/// The records one step gives.
pub open spec fn step_records(
    tree: Map<Seq<Seq<char>>, Seq<(Option<Seq<char>>, FileMetadata)>>,
    frames: Seq<(Seq<Seq<char>>, Option<Seq<char>>, nat)>,
) -> Seq<(Seq<char>, u64, i128, Option<QualifiedIdentity>)> {
    let f = frames[0];
    let listing = listing_of(tree, f.0);
    if f.2 >= listing.len() {
        Seq::empty()
    } else {
        match entry_effect(f, listing[f.2 as int].0, listing[f.2 as int].1).0 {
            Some(r) => seq![r],
            None => Seq::empty(),
        }
    }
}

/// The records a depth-first walk of `tree` from `frames` gives, in walk
/// order, if it ends within `fuel` steps (one per entry and one per
/// directory).
pub open spec fn walk(
    tree: Map<Seq<Seq<char>>, Seq<(Option<Seq<char>>, FileMetadata)>>,
    frames: Seq<(Seq<Seq<char>>, Option<Seq<char>>, nat)>,
    fuel: nat,
) -> Option<Seq<(Seq<char>, u64, i128, Option<QualifiedIdentity>)>>
    decreases fuel,
{
    if frames.len() == 0 {
        Some(Seq::empty())
    } else if fuel == 0 {
        None
    } else {
        match walk(tree, next_frames(tree, frames), (fuel - 1) as nat) {
            Some(rest) => Some(step_records(tree, frames) + rest),
            None => None,
        }
    }
}

/// The walk's start: the root, with nothing read.
pub open spec fn root_frames() -> Seq<(Seq<Seq<char>>, Option<Seq<char>>, nat)> {
    seq![(Seq::<Seq<char>>::empty(), None::<Seq<char>>, 0nat)]
}

spec fn prefixed(
    p: Seq<(Seq<char>, u64, i128, Option<QualifiedIdentity>)>,
    o: Option<Seq<(Seq<char>, u64, i128, Option<QualifiedIdentity>)>>,
) -> Option<Seq<(Seq<char>, u64, i128, Option<QualifiedIdentity>)>> {
    match o {
        Some(r) => Some(p + r),
        None => None,
    }
}

/// After `steps` steps that gave `emitted`, the walk from the root goes on
/// as the walk from `current`.
spec fn walk_prefix(
    tree: Map<Seq<Seq<char>>, Seq<(Option<Seq<char>>, FileMetadata)>>,
    steps: nat,
    emitted: Seq<(Seq<char>, u64, i128, Option<QualifiedIdentity>)>,
    current: Seq<(Seq<Seq<char>>, Option<Seq<char>>, nat)>,
) -> bool {
    forall|m: nat| walk(tree, root_frames(), steps + m) == prefixed(emitted, #[trigger] walk(tree, current, m))
}

proof fn lemma_walk_start(tree: Map<Seq<Seq<char>>, Seq<(Option<Seq<char>>, FileMetadata)>>)
    ensures
        walk_prefix(tree, 0, Seq::empty(), root_frames()),
{
    assert forall|m: nat| walk(tree, root_frames(), 0 + m) == prefixed(Seq::empty(), #[trigger] walk(tree, root_frames(), m)) by {
        match walk(tree, root_frames(), m) {
            Some(r) => assert(Seq::<(Seq<char>, u64, i128, Option<QualifiedIdentity>)>::empty() + r =~= r),
            None => {},
        }
    }
}

proof fn lemma_walk_advance(
    tree: Map<Seq<Seq<char>>, Seq<(Option<Seq<char>>, FileMetadata)>>,
    steps: nat,
    emitted: Seq<(Seq<char>, u64, i128, Option<QualifiedIdentity>)>,
    current: Seq<(Seq<Seq<char>>, Option<Seq<char>>, nat)>,
)
    requires
        walk_prefix(tree, steps, emitted, current),
        current.len() > 0,
    ensures
        walk_prefix(tree, steps + 1, emitted + step_records(tree, current), next_frames(tree, current)),
{
    let next = next_frames(tree, current);
    let e2 = emitted + step_records(tree, current);
    assert forall|m: nat| walk(tree, root_frames(), (steps + 1) + m) == prefixed(e2, #[trigger] walk(tree, next, m)) by {
        let w = walk(tree, current, (m + 1) as nat);
        assert((steps + 1) + m == steps + (m + 1));
        match walk(tree, next, m) {
            Some(r) => assert(emitted + (step_records(tree, current) + r) =~= e2 + r),
            None => {},
        }
    }
}

proof fn lemma_walk_end(
    tree: Map<Seq<Seq<char>>, Seq<(Option<Seq<char>>, FileMetadata)>>,
    steps: nat,
    emitted: Seq<(Seq<char>, u64, i128, Option<QualifiedIdentity>)>,
    current: Seq<(Seq<Seq<char>>, Option<Seq<char>>, nat)>,
)
    requires
        walk_prefix(tree, steps, emitted, current),
        current.len() == 0,
    ensures
        walk(tree, root_frames(), steps) == Some(emitted),
{
    let w = walk(tree, current, 0);
    assert(emitted + Seq::<(Seq<char>, u64, i128, Option<QualifiedIdentity>)>::empty() =~= emitted);
    assert(walk(tree, root_frames(), steps + 0) == Some(emitted));
}

/// What an entry read from the directory `frame` is: the listed entry at
/// its position, under a valid name that normalizes to `shown`.
spec fn entry_read(tree: Map<Seq<Seq<char>>, Seq<(Option<Seq<char>>, FileMetadata)>>, frame: (Seq<Seq<char>>, Option<Seq<char>>, nat), name: Seq<char>, shown: Seq<char>, metadata: FileMetadata) -> bool {
    let listing = listing_of(tree, frame.0);
    &&& frame.2 < listing.len()
    &&& listing[frame.2 as int].0 == Some(name)
    &&& listing[frame.2 as int].1 == metadata
    &&& entry_name_error(name) is None
    &&& normalize_spec(joined(frame.1, name)) == Ok::<Seq<char>, PathError>(shown)
}

proof fn lemma_entry_passed(tree: Map<Seq<Seq<char>>, Seq<(Option<Seq<char>>, FileMetadata)>>, steps: nat, emitted: Seq<(Seq<char>, u64, i128, Option<QualifiedIdentity>)>, frame: (Seq<Seq<char>>, Option<Seq<char>>, nat), rest: Seq<(Seq<Seq<char>>, Option<Seq<char>>, nat)>, name: String, shown: Seq<char>, metadata: FileMetadata)
    requires
        walk_prefix(tree, steps, emitted, seq![frame] + rest),
        entry_read(tree, frame, name@, shown, metadata),
        entry_action_spec(name@, metadata.kind, metadata.reparse_point) is Exclude
            || entry_action_spec(name@, metadata.kind, metadata.reparse_point) is Skip,
    ensures
        walk_prefix(tree, steps + 1, emitted, seq![(frame.0, frame.1, (frame.2 + 1) as nat)] + rest),
{
    let cur = seq![frame] + rest;
    lemma_walk_advance(tree, steps, emitted, cur);
    assert(cur[0] == frame);
    assert(cur.drop_first() =~= rest);
    assert(next_frames(tree, cur) =~= seq![(frame.0, frame.1, (frame.2 + 1) as nat)] + rest);
    assert(emitted + step_records(tree, cur) =~= emitted);
}

proof fn lemma_entry_descended(tree: Map<Seq<Seq<char>>, Seq<(Option<Seq<char>>, FileMetadata)>>, steps: nat, emitted: Seq<(Seq<char>, u64, i128, Option<QualifiedIdentity>)>, frame: (Seq<Seq<char>>, Option<Seq<char>>, nat), rest: Seq<(Seq<Seq<char>>, Option<Seq<char>>, nat)>, name: String, shown: Seq<char>, metadata: FileMetadata)
    requires
        walk_prefix(tree, steps, emitted, seq![frame] + rest),
        entry_read(tree, frame, name@, shown, metadata),
        entry_action_spec(name@, metadata.kind, metadata.reparse_point) is Descend,
    ensures
        walk_prefix(tree, steps + 1, emitted,
            seq![(frame.0, frame.1, (frame.2 + 1) as nat)] + (seq![(frame.0.push(name@), Some(shown), 0nat)] + rest)),
{
    let cur = seq![frame] + rest;
    lemma_walk_advance(tree, steps, emitted, cur);
    assert(cur[0] == frame);
    assert(cur.drop_first() =~= rest);
    assert(next_frames(tree, cur) =~= seq![(frame.0, frame.1, (frame.2 + 1) as nat)] + (seq![(frame.0.push(name@), Some(shown), 0nat)] + rest));
    assert(emitted + step_records(tree, cur) =~= emitted);
}

proof fn lemma_entry_observed(tree: Map<Seq<Seq<char>>, Seq<(Option<Seq<char>>, FileMetadata)>>, steps: nat, emitted: Seq<(Seq<char>, u64, i128, Option<QualifiedIdentity>)>, frame: (Seq<Seq<char>>, Option<Seq<char>>, nat), rest: Seq<(Seq<Seq<char>>, Option<Seq<char>>, nat)>, name: String, shown: Seq<char>, metadata: FileMetadata)
    requires
        walk_prefix(tree, steps, emitted, seq![frame] + rest),
        entry_read(tree, frame, name@, shown, metadata),
        entry_action_spec(name@, metadata.kind, metadata.reparse_point) is Observe,
    ensures
        walk_prefix(tree, steps + 1, emitted.push((shown, metadata.byte_size, metadata.modified_unix_ns, metadata.identity)),
            seq![(frame.0, frame.1, (frame.2 + 1) as nat)] + rest),
{
    let cur = seq![frame] + rest;
    lemma_walk_advance(tree, steps, emitted, cur);
    assert(cur[0] == frame);
    assert(cur.drop_first() =~= rest);
    assert(next_frames(tree, cur) =~= seq![(frame.0, frame.1, (frame.2 + 1) as nat)] + rest);
    assert(emitted + step_records(tree, cur) =~= emitted.push((shown, metadata.byte_size, metadata.modified_unix_ns, metadata.identity)));
}

/// The display path of a directory waiting to be walked, as text.
spec fn relative_view(r: Option<DisplayRelativePath>) -> Option<Seq<char>> {
    match r {
        Some(d) => Some(d@),
        None => None,
    }
}

spec fn work_frame<C: DirectoryCursor>(w: DirectoryWork<C>) -> (Seq<Seq<char>>, Option<Seq<char>>, nat) {
    (w.opened.cursor.dir(), relative_view(w.relative), w.opened.cursor.position())
}

/// The directories waiting on the stack, next first.
spec fn stack_frames<C: DirectoryCursor>(s: Seq<DirectoryWork<C>>) -> Seq<(Seq<Seq<char>>, Option<Seq<char>>, nat)> {
    Seq::new(s.len(), |i: int| work_frame(s[s.len() - 1 - i]))
}

spec fn stack_on_tree<C: DirectoryCursor>(s: Seq<DirectoryWork<C>>, tree: Map<Seq<Seq<char>>, Seq<(Option<Seq<char>>, FileMetadata)>>) -> bool {
    forall|i: int| 0 <= i < s.len() ==> (#[trigger] s[i]).opened.cursor.lists_fixed_tree() && s[i].opened.cursor.tree() == tree
}

proof fn lemma_records_push(batches: Seq<(ObservationBatch, bool)>, b: (ObservationBatch, bool))
    ensures
        records_in(batches.push(b)) == records_in(batches) + b.0.records@.len(),
{
    assert(batches.push(b).drop_last() =~= batches);
}

/// Hands a batch to a batch sink.
struct ViaSink;

/// Stages a batch into run-scoped storage.
struct ViaStorage;

/// Where the walk delivers its batches, as a log of deliveries (each with
/// the run it was made under and whether it was taken) and a log of the
/// runs abandoned.
trait Staging<M> {
    spec fn deliveries(&self) -> Seq<(Seq<char>, ObservationBatch, bool)>;

    spec fn drops(&self) -> Seq<Seq<char>>;

    /// The run ids a delivery can be made under.
    spec fn takes(run_id: Seq<char>) -> bool;

    fn deliver(&mut self, run_id: &str, batch: ObservationBatch) -> (r: Result<(), SinkError>)
        requires
            Self::takes(run_id@),
        ensures
            final(self).deliveries() == old(self).deliveries().push((run_id@, batch, r is Ok)),
            final(self).drops() == old(self).drops(),
    ;

    fn abandon(&mut self, run_id: &str)
        requires
            Self::takes(run_id@),
        ensures
            final(self).deliveries() == old(self).deliveries(),
            final(self).drops() == old(self).drops().push(run_id@),
    ;
}

impl<B: BatchSink> Staging<ViaSink> for B {
    spec fn deliveries(&self) -> Seq<(Seq<char>, ObservationBatch, bool)> {
        self.offered().map_values(|p: (ObservationBatch, bool)| (Seq::<char>::empty(), p.0, p.1))
    }

    spec fn drops(&self) -> Seq<Seq<char>> {
        Seq::new(self.discards(), |i: int| Seq::<char>::empty())
    }

    spec fn takes(run_id: Seq<char>) -> bool {
        run_id == Seq::<char>::empty()
    }

    fn deliver(&mut self, run_id: &str, batch: ObservationBatch) -> (r: Result<(), SinkError>) {
        let r = self.accept(batch);
        assert(self.offered().map_values(|p: (ObservationBatch, bool)| (Seq::<char>::empty(), p.0, p.1))
            =~= old(self).offered().map_values(|p: (ObservationBatch, bool)| (Seq::<char>::empty(), p.0, p.1))
                .push((run_id@, batch, r is Ok)));
        r
    }

    fn abandon(&mut self, run_id: &str) {
        self.discard();
        assert(Seq::new(self.discards(), |i: int| Seq::<char>::empty())
            =~= Seq::new(old(self).discards(), |i: int| Seq::<char>::empty()).push(run_id@));
    }
}

impl<S: RunScopedStorage> Staging<ViaStorage> for S {
    spec fn deliveries(&self) -> Seq<(Seq<char>, ObservationBatch, bool)> {
        self.staging_log()
    }

    spec fn drops(&self) -> Seq<Seq<char>> {
        self.invalidated_runs()
    }

    spec fn takes(run_id: Seq<char>) -> bool {
        true
    }

    fn deliver(&mut self, run_id: &str, batch: ObservationBatch) -> (r: Result<(), SinkError>) {
        self.stage_batch(run_id, batch)
    }

    fn abandon(&mut self, run_id: &str) {
        self.invalidate_run(run_id);
    }
}

impl<C> EngineState<C> {
    spec fn inv(&self, limits: EnumerationLimits) -> bool {
        &&& report_bounded(self.report, self.status, limits)
        &&& self.next_batch_sequence == self.report.batches_delivered
        &&& self.seen.well_formed()
        &&& self.pending@.len() <= limits.max_batch_records
        &&& self.pending_bytes <= limits.max_batch_bytes
        &&& (self.pending@.len() == 0 ==> self.pending_bytes == 0)
        &&& self.report.observations_discovered >= self.pending@.len()
        &&& forall|k: int| 0 <= k < self.pending@.len() ==> #[trigger] flp_record(self.pending@[k])
        &&& status_explained(self.status, self.report)
    }

    fn new() -> (r: Self)
        ensures
            r.status is None,
            forall|l: EnumerationLimits| r.inv(l),
            r.report.outcome == Outcome::Invalid,
            r.report.directories_visited == 0,
            r.report.entries_examined == 0,
            r.report.observations_discovered == 0,
            r.report.batches_delivered == 0,
            r.pending@.len() == 0,
            r.report.coverage_failures@.len() == 0,
            r.report.root_qualification is None,
            r.stack@.len() == 0,
            r.path_bytes == 0,
            r.pending_path_bytes == 0,
    {
        EngineState {
            report: EnumerationReport::new(),
            seen: KeySet::new(),
            stack: Vec::new(),
            pending: Vec::new(),
            pending_bytes: 0,
            pending_path_bytes: 0,
            next_batch_sequence: 0,
            path_bytes: 0,
            root_identity: None,
            last_progress: None,
            status: None,
        }
    }

    /// Records a coverage failure (or counts it once the diagnostic budget
    /// is spent) and folds its outcome into the status.
    fn add_failure(&mut self, limits: &EnumerationLimits, display_path: Option<DisplayRelativePath>, kind: CoverageFailureKind, outcome: Outcome)
        requires
            old(self).inv(*limits),
            outcome == kind_outcome(kind),
        ensures
            final(self).inv(*limits),
            final(self).status == Some(combine_spec(old(self).status, outcome)),
            final(self).report.outcome == old(self).report.outcome,
            final(self).report.directories_visited == old(self).report.directories_visited,
            final(self).report.entries_examined == old(self).report.entries_examined,
            final(self).report.observations_discovered == old(self).report.observations_discovered,
            final(self).report.batches_delivered == old(self).report.batches_delivered,
            final(self).report.exclusions == old(self).report.exclusions,
            final(self).pending == old(self).pending,
            final(self).pending_bytes == old(self).pending_bytes,
            final(self).seen == old(self).seen,
            final(self).stack == old(self).stack,
            final(self).path_bytes == old(self).path_bytes,
            final(self).pending_path_bytes == old(self).pending_path_bytes,
            final(self).next_batch_sequence == old(self).next_batch_sequence,
            final(self).root_identity == old(self).root_identity,
            old(self).report.coverage_failures@.len() < limits.max_diagnostics ==>
                final(self).report.coverage_failures@ == old(self).report.coverage_failures@.push(CoverageFailure { display_path, kind }),
            old(self).report.coverage_failures@.len() >= limits.max_diagnostics ==>
                final(self).report.coverage_failures@ == old(self).report.coverage_failures@,
            final(self).report.omitted_coverage_failures >= old(self).report.omitted_coverage_failures,
            old(self).report.coverage_failures@.len() >= limits.max_diagnostics ==> final(self).report.omitted_coverage_failures > 0,
    {
        if self.report.coverage_failures.len() < limits.max_diagnostics {
            self.report.coverage_failures.push(CoverageFailure { display_path, kind });
        } else {
            self.report.omitted_coverage_failures = self.report.omitted_coverage_failures.saturating_add(1);
        }
        let ghost before_status = self.status;
        self.status = Some(combine_outcomes(self.status, outcome));
        proof {
            let o = old(self).report;
            let r = self.report;
            let st = combine_spec(before_status, outcome);
            assert forall|i: int| 0 <= i < r.coverage_failures@.len()
                implies outcome_rank(st) >= outcome_rank(kind_outcome(#[trigger] r.coverage_failures@[i].kind)) by {
                if i < o.coverage_failures@.len() {
                    assert(r.coverage_failures@[i] == o.coverage_failures@[i]);
                } else {
                    assert(r.coverage_failures@[i].kind == kind);
                }
            }
            if st != Outcome::Complete && st != Outcome::Cancelled && st != Outcome::ResourceLimit && st != Outcome::SinkFailed
                && r.omitted_coverage_failures == 0 {
                if st == outcome {
                    let i = o.coverage_failures@.len() as int;
                    assert(r.coverage_failures@[i].kind == kind);
                } else {
                    let i = choose|i: int| 0 <= i < o.coverage_failures@.len()
                        && kind_outcome(#[trigger] o.coverage_failures@[i].kind) == st;
                    assert(r.coverage_failures@[i] == o.coverage_failures@[i]);
                }
            }
        }
    }

    /// Records a policy exclusion, or counts it once the budget is spent.
    fn add_exclusion(&mut self, limits: &EnumerationLimits, display_path: DisplayRelativePath, reason: ExclusionReason)
        requires
            old(self).inv(*limits),
        ensures
            final(self).inv(*limits),
            final(self).status == old(self).status,
            final(self).report.coverage_failures == old(self).report.coverage_failures,
            final(self).report.omitted_coverage_failures == old(self).report.omitted_coverage_failures,
            final(self).report.directories_visited == old(self).report.directories_visited,
            final(self).report.entries_examined == old(self).report.entries_examined,
            final(self).report.observations_discovered == old(self).report.observations_discovered,
            final(self).report.batches_delivered == old(self).report.batches_delivered,
            final(self).pending == old(self).pending,
            final(self).pending_bytes == old(self).pending_bytes,
            final(self).seen == old(self).seen,
            final(self).stack == old(self).stack,
            final(self).path_bytes == old(self).path_bytes,
            final(self).pending_path_bytes == old(self).pending_path_bytes,
            final(self).root_identity == old(self).root_identity,
            old(self).report.exclusions@.len() < limits.max_exclusions ==>
                final(self).report.exclusions@ == old(self).report.exclusions@.push(PolicyExclusion { display_path, reason })
                && final(self).report.omitted_exclusions == old(self).report.omitted_exclusions,
            old(self).report.exclusions@.len() >= limits.max_exclusions ==>
                final(self).report.exclusions@ == old(self).report.exclusions@
                && final(self).report.omitted_exclusions == super::saturate_usize((old(self).report.omitted_exclusions + 1) as nat),
    {
        if self.report.exclusions.len() < limits.max_exclusions {
            self.report.exclusions.push(PolicyExclusion { display_path, reason });
        } else {
            self.report.omitted_exclusions = self.report.omitted_exclusions.saturating_add(1);
        }
    }

    /// Charges `bytes` of path text against the per-path and total budgets.
    fn reserve_path_bytes(&mut self, limits: &EnumerationLimits, bytes: usize) -> (ok: bool)
        ensures
            ok == (bytes <= limits.max_path_bytes
                && super::saturate_usize((old(self).path_bytes + bytes) as nat) <= limits.max_total_path_bytes),
            ok ==> final(self).path_bytes == super::saturate_usize((old(self).path_bytes + bytes) as nat),
            !ok ==> final(self).path_bytes == old(self).path_bytes,
            final(self).report == old(self).report,
            final(self).status == old(self).status,
            final(self).pending == old(self).pending,
            final(self).pending_bytes == old(self).pending_bytes,
            final(self).seen == old(self).seen,
            final(self).stack == old(self).stack,
            final(self).pending_path_bytes == old(self).pending_path_bytes,
            final(self).next_batch_sequence == old(self).next_batch_sequence,
    {
        let next = self.path_bytes.saturating_add(bytes);
        if bytes > limits.max_path_bytes || next > limits.max_total_path_bytes {
            return false;
        }
        self.path_bytes = next;
        true
    }
}

/// The effect of a port error on the root: the coverage failure and the
/// outcome it records, or `None` for a resource limit, which only sets the
/// status.
pub open spec fn root_port_effect(e: PortError) -> Option<(CoverageFailureKind, Outcome)> {
    match e {
        PortError::AccessDenied => Some((CoverageFailureKind::RootDenied, Outcome::Denied)),
        PortError::NotFound => Some((CoverageFailureKind::RootNotFound, Outcome::RootUnavailable)),
        PortError::ResourceLimit => None,
        PortError::Unsupported => Some((CoverageFailureKind::UnsupportedFilesystem, Outcome::UnsupportedFilesystem)),
        _ => Some((CoverageFailureKind::RootChanged, Outcome::RootUnavailable)),
    }
}

/// The effect of a port error on a directory, when opening it or reading
/// its entries.
pub open spec fn directory_port_effect(e: PortError) -> Option<(CoverageFailureKind, Outcome)> {
    match e {
        PortError::AccessDenied => Some((CoverageFailureKind::DirectoryDenied, Outcome::Denied)),
        PortError::NotFound => Some((CoverageFailureKind::DirectoryNotFound, Outcome::Partial)),
        PortError::ResourceLimit => None,
        PortError::ReparsePoint | PortError::Changed => Some((CoverageFailureKind::DirectoryChanged, Outcome::Partial)),
        PortError::Unsupported | PortError::Other => Some((CoverageFailureKind::DirectoryRead, Outcome::Partial)),
    }
}

/// The effect of a port error on reading an entry's metadata; a reparse
/// point is excluded by policy instead (`None` here, like a resource limit).
pub open spec fn metadata_port_effect(e: PortError) -> Option<(CoverageFailureKind, Outcome)> {
    match e {
        PortError::AccessDenied => Some((CoverageFailureKind::EntryDenied, Outcome::Denied)),
        PortError::NotFound => Some((CoverageFailureKind::EntryDisappeared, Outcome::Partial)),
        PortError::ResourceLimit => None,
        PortError::ReparsePoint => None,
        PortError::Changed => Some((CoverageFailureKind::DirectoryChanged, Outcome::Partial)),
        PortError::Unsupported | PortError::Other => Some((CoverageFailureKind::MetadataRead, Outcome::Partial)),
    }
}

/// The walk's progress counters are unchanged from `a` to `b`.
pub open spec fn counters_kept(a: EnumerationReport, b: EnumerationReport) -> bool {
    &&& a.directories_visited == b.directories_visited
    &&& a.entries_examined == b.entries_examined
    &&& a.observations_discovered == b.observations_discovered
    &&& a.batches_delivered == b.batches_delivered
}

/// The state of `b` is the state of `a` with at most diagnostics and the
/// status changed.
spec fn walk_kept<C>(a: &EngineState<C>, b: &EngineState<C>) -> bool {
    &&& counters_kept(a.report, b.report)
    &&& a.stack == b.stack
    &&& a.pending == b.pending
    &&& a.pending_bytes == b.pending_bytes
    &&& a.seen == b.seen
    &&& a.path_bytes == b.path_bytes
    &&& a.pending_path_bytes == b.pending_path_bytes
    &&& a.root_identity == b.root_identity
}

/// `b` records what `a` had plus the failure `kind` at `display_path` with
/// its outcome: the status combined with the outcome, and the diagnostic
/// appended while the diagnostic budget has room.
spec fn failure_recorded<C>(
    a: &EngineState<C>,
    b: &EngineState<C>,
    limits: EnumerationLimits,
    display_path: Option<DisplayRelativePath>,
    kind: CoverageFailureKind,
    outcome: Outcome,
) -> bool {
    &&& b.status == Some(combine_spec(a.status, outcome))
    &&& b.report.coverage_failures@ == if a.report.coverage_failures@.len() < limits.max_diagnostics {
            a.report.coverage_failures@.push(CoverageFailure { display_path, kind })
        } else {
            a.report.coverage_failures@
        }
}

/// What a check found: the failure it records and its outcome, or nothing.
pub open spec fn found_outcome(found: Option<(CoverageFailureKind, Outcome)>) -> Option<Outcome> {
    match found {
        Some((_, o)) => Some(o),
        None => None,
    }
}

/// `b` records what the check found on `a`, or is `a`'s status and
/// diagnostics unchanged when it found nothing.
spec fn check_recorded<C>(
    a: &EngineState<C>,
    b: &EngineState<C>,
    limits: EnumerationLimits,
    display_path: Option<DisplayRelativePath>,
    found: Option<(CoverageFailureKind, Outcome)>,
) -> bool {
    match found {
        Some((kind, outcome)) => failure_recorded(a, b, limits, display_path, kind, outcome),
        None => b.status == a.status && b.report.coverage_failures == a.report.coverage_failures,
    }
}

/// The checks on the inspected root: a local NTFS volume, a directory that
/// is no reparse point, and a physical identity, in that order.
pub open spec fn root_metadata_failure(root: RootMetadata) -> Option<(CoverageFailureKind, Outcome)> {
    if root.qualification != FilesystemQualification::LocalNtfs {
        Some((CoverageFailureKind::UnsupportedFilesystem, Outcome::UnsupportedFilesystem))
    } else if root.metadata.reparse_point || root.metadata.kind != EntryKind::Directory {
        Some((CoverageFailureKind::RootChanged, Outcome::RootUnavailable))
    } else if root.metadata.identity is None {
        Some((CoverageFailureKind::RootIdentityUnavailable, Outcome::Partial))
    } else {
        None
    }
}

/// The checks on the opened root against its inspection: still a directory
/// and no reparse point, with the inspected identity.
pub open spec fn opened_root_failure(inspected: FileMetadata, opened: FileMetadata) -> Option<(CoverageFailureKind, Outcome)> {
    if opened.reparse_point || opened.kind != EntryKind::Directory {
        Some((CoverageFailureKind::RootChanged, Outcome::RootUnavailable))
    } else {
        match (inspected.identity, opened.identity) {
            (Some(before), Some(after)) => if before == after {
                None
            } else {
                Some((CoverageFailureKind::RootChanged, Outcome::RootUnavailable))
            },
            _ => Some((CoverageFailureKind::RootIdentityUnavailable, Outcome::Partial)),
        }
    }
}

/// The checks on an opened child directory against its inspection.
pub open spec fn opened_child_failure(inspected: FileMetadata, opened: FileMetadata) -> Option<(CoverageFailureKind, Outcome)> {
    if opened.reparse_point || opened.kind != EntryKind::Directory {
        Some((CoverageFailureKind::DirectoryChanged, Outcome::Partial))
    } else {
        match (inspected.identity, opened.identity) {
            (Some(before), Some(after)) => if before == after {
                None
            } else {
                Some((CoverageFailureKind::DirectoryChanged, Outcome::Partial))
            },
            _ => Some((CoverageFailureKind::DirectoryIdentityUnavailable, Outcome::Partial)),
        }
    }
}

/// The checks on the root after the walk: still a local NTFS directory, no
/// reparse point, with the identity seen before the walk.
pub open spec fn final_root_failure(identity: Option<QualifiedIdentity>, root: RootMetadata) -> Option<(CoverageFailureKind, Outcome)> {
    if root.qualification != FilesystemQualification::LocalNtfs || root.metadata.reparse_point
        || root.metadata.kind != EntryKind::Directory {
        Some((CoverageFailureKind::RootChanged, Outcome::RootUnavailable))
    } else {
        match (identity, root.metadata.identity) {
            (Some(before), Some(after)) => if before == after {
                None
            } else {
                Some((CoverageFailureKind::RootChanged, Outcome::RootUnavailable))
            },
            _ => Some((CoverageFailureKind::RootIdentityUnavailable, Outcome::Partial)),
        }
    }
}

impl<C> EngineState<C> {
    fn record_root_port_error(&mut self, limits: &EnumerationLimits, error: PortError)
        requires
            old(self).inv(*limits),
        ensures
            final(self).inv(*limits),
            walk_kept(old(self), final(self)),
            final(self).status is Some,
            match root_port_effect(error) {
                Some((kind, outcome)) => failure_recorded(old(self), final(self), *limits, None, kind, outcome),
                None => final(self).status == Some(Outcome::ResourceLimit)
                    && final(self).report.coverage_failures == old(self).report.coverage_failures,
            },
    {
        match error {
            PortError::AccessDenied => self.add_failure(limits, None, CoverageFailureKind::RootDenied, Outcome::Denied),
            PortError::NotFound => self.add_failure(limits, None, CoverageFailureKind::RootNotFound, Outcome::RootUnavailable),
            PortError::ResourceLimit => self.status = Some(Outcome::ResourceLimit),
            PortError::Unsupported => self.add_failure(limits, None, CoverageFailureKind::UnsupportedFilesystem, Outcome::UnsupportedFilesystem),
            PortError::ReparsePoint | PortError::Changed | PortError::Other =>
                self.add_failure(limits, None, CoverageFailureKind::RootChanged, Outcome::RootUnavailable),
        }
    }

    fn record_directory_error(&mut self, limits: &EnumerationLimits, display: Option<DisplayRelativePath>, error: PortError)
        requires
            old(self).inv(*limits),
        ensures
            final(self).inv(*limits),
            walk_kept(old(self), final(self)),
            final(self).status is Some,
            error == PortError::ResourceLimit ==> final(self).status == Some(Outcome::ResourceLimit),
            match directory_port_effect(error) {
                Some((kind, outcome)) => failure_recorded(old(self), final(self), *limits, display, kind, outcome),
                None => final(self).report.coverage_failures == old(self).report.coverage_failures,
            },
    {
        match error {
            PortError::AccessDenied => self.add_failure(limits, display, CoverageFailureKind::DirectoryDenied, Outcome::Denied),
            PortError::NotFound => self.add_failure(limits, display, CoverageFailureKind::DirectoryNotFound, Outcome::Partial),
            PortError::ResourceLimit => self.status = Some(Outcome::ResourceLimit),
            PortError::ReparsePoint | PortError::Changed =>
                self.add_failure(limits, display, CoverageFailureKind::DirectoryChanged, Outcome::Partial),
            PortError::Unsupported | PortError::Other =>
                self.add_failure(limits, display, CoverageFailureKind::DirectoryRead, Outcome::Partial),
        }
    }

    fn record_metadata_error(&mut self, limits: &EnumerationLimits, display: DisplayRelativePath, error: PortError)
        requires
            old(self).inv(*limits),
        ensures
            final(self).inv(*limits),
            walk_kept(old(self), final(self)),
            error != PortError::ReparsePoint ==> final(self).status is Some,
            error == PortError::ReparsePoint ==> final(self).status == old(self).status,
            error == PortError::ResourceLimit ==> final(self).status == Some(Outcome::ResourceLimit),
            match metadata_port_effect(error) {
                Some((kind, outcome)) => failure_recorded(old(self), final(self), *limits, Some(display), kind, outcome),
                None => final(self).report.coverage_failures == old(self).report.coverage_failures,
            },
    {
        match error {
            PortError::AccessDenied =>
                self.add_failure(limits, Some(display), CoverageFailureKind::EntryDenied, Outcome::Denied),
            PortError::NotFound =>
                self.add_failure(limits, Some(display), CoverageFailureKind::EntryDisappeared, Outcome::Partial),
            PortError::ResourceLimit => self.status = Some(Outcome::ResourceLimit),
            PortError::ReparsePoint => self.add_exclusion(limits, display, ExclusionReason::ReparsePoint),
            PortError::Changed =>
                self.add_failure(limits, Some(display), CoverageFailureKind::DirectoryChanged, Outcome::Partial),
            PortError::Unsupported | PortError::Other =>
                self.add_failure(limits, Some(display), CoverageFailureKind::MetadataRead, Outcome::Partial),
        }
    }

    /// The checks on the root before it is opened: a local NTFS volume, a
    /// real directory rather than a reparse point, and a physical identity.
    fn validate_root_metadata(&mut self, limits: &EnumerationLimits, root: &RootMetadata) -> (r: Option<Outcome>)
        requires
            old(self).inv(*limits),
        ensures
            final(self).inv(*limits),
            walk_kept(old(self), final(self)),
            r matches Some(o) ==> o != Outcome::Complete && final(self).status is Some,
            r is None ==> final(self).status == old(self).status,
            r == found_outcome(root_metadata_failure(*root)),
            check_recorded(old(self), final(self), *limits, None, root_metadata_failure(*root)),
    {
        if root.qualification != FilesystemQualification::LocalNtfs {
            self.add_failure(limits, None, CoverageFailureKind::UnsupportedFilesystem, Outcome::UnsupportedFilesystem);
            return Some(Outcome::UnsupportedFilesystem);
        }
        if root.metadata.reparse_point || root.metadata.kind != EntryKind::Directory {
            self.add_failure(limits, None, CoverageFailureKind::RootChanged, Outcome::RootUnavailable);
            return Some(Outcome::RootUnavailable);
        }
        if root.metadata.identity.is_none() {
            self.add_failure(limits, None, CoverageFailureKind::RootIdentityUnavailable, Outcome::Partial);
            return Some(Outcome::Partial);
        }
        None
    }

    /// The opened root must still be the inspected directory.
    fn validate_opened_root(&mut self, limits: &EnumerationLimits, inspected: &FileMetadata, opened: &FileMetadata) -> (r: Option<Outcome>)
        requires
            old(self).inv(*limits),
        ensures
            final(self).inv(*limits),
            walk_kept(old(self), final(self)),
            r matches Some(o) ==> o != Outcome::Complete && final(self).status is Some,
            r is None ==> final(self).status == old(self).status,
            r == found_outcome(opened_root_failure(*inspected, *opened)),
            check_recorded(old(self), final(self), *limits, None, opened_root_failure(*inspected, *opened)),
    {
        if opened.reparse_point || opened.kind != EntryKind::Directory {
            self.add_failure(limits, None, CoverageFailureKind::RootChanged, Outcome::RootUnavailable);
            return Some(Outcome::RootUnavailable);
        }
        match (inspected.identity, opened.identity) {
            (Some(before), Some(after)) => {
                if before == after {
                    None
                } else {
                    self.add_failure(limits, None, CoverageFailureKind::RootChanged, Outcome::RootUnavailable);
                    Some(Outcome::RootUnavailable)
                }
            },
            _ => {
                self.add_failure(limits, None, CoverageFailureKind::RootIdentityUnavailable, Outcome::Partial);
                Some(Outcome::Partial)
            },
        }
    }

    /// An opened child must still be the inspected directory.
    fn validate_opened_child(&mut self, limits: &EnumerationLimits, display: &DisplayRelativePath, inspected: &FileMetadata, opened: &FileMetadata) -> (ok: bool)
        requires
            old(self).inv(*limits),
        ensures
            final(self).inv(*limits),
            walk_kept(old(self), final(self)),
            ok ==> final(self).status == old(self).status,
            !ok ==> final(self).status is Some,
            ok == opened_child_failure(*inspected, *opened) is None,
            check_recorded(old(self), final(self), *limits, Some(*display), opened_child_failure(*inspected, *opened)),
    {
        if opened.reparse_point || opened.kind != EntryKind::Directory {
            self.add_failure(limits, Some(display.clone()), CoverageFailureKind::DirectoryChanged, Outcome::Partial);
            return false;
        }
        match (inspected.identity, opened.identity) {
            (Some(before), Some(after)) => {
                if before == after {
                    true
                } else {
                    self.add_failure(limits, Some(display.clone()), CoverageFailureKind::DirectoryChanged, Outcome::Partial);
                    false
                }
            },
            _ => {
                self.add_failure(limits, Some(display.clone()), CoverageFailureKind::DirectoryIdentityUnavailable, Outcome::Partial);
                false
            },
        }
    }

    /// After the walk the root must still be the same local NTFS directory.
    fn validate_final_root(&mut self, limits: &EnumerationLimits, root: &RootMetadata) -> (r: Option<Outcome>)
        requires
            old(self).inv(*limits),
        ensures
            final(self).inv(*limits),
            walk_kept(old(self), final(self)),
            r matches Some(o) ==> o != Outcome::Complete && final(self).status is Some,
            r is None ==> final(self).status == old(self).status,
            r == found_outcome(final_root_failure(old(self).root_identity, *root)),
            check_recorded(old(self), final(self), *limits, None, final_root_failure(old(self).root_identity, *root)),
            r matches Some(o) ==> final_root_check_said(o, final(self).report) && failure_behind(o, final(self).report),
    {
        if root.qualification != FilesystemQualification::LocalNtfs {
            self.add_failure(limits, None, CoverageFailureKind::RootChanged, Outcome::RootUnavailable);
            return Some(Outcome::RootUnavailable);
        }
        if root.metadata.reparse_point || root.metadata.kind != EntryKind::Directory {
            self.add_failure(limits, None, CoverageFailureKind::RootChanged, Outcome::RootUnavailable);
            return Some(Outcome::RootUnavailable);
        }
        match (self.root_identity, root.metadata.identity) {
            (Some(before), Some(after)) => {
                if before == after {
                    None
                } else {
                    self.add_failure(limits, None, CoverageFailureKind::RootChanged, Outcome::RootUnavailable);
                    Some(Outcome::RootUnavailable)
                }
            },
            _ => {
                self.add_failure(limits, None, CoverageFailureKind::RootIdentityUnavailable, Outcome::Partial);
                Some(Outcome::Partial)
            },
        }
    }

    /// Hands the pending records to the sink as one batch. Cancellation, an
    /// exhausted batch budget or a sink error drops them and fails.
    #[verifier::spinoff_prover]
    fn flush_pending<M, T: Staging<M>, Ca: Cancellation>(
        &mut self,
        limits: &EnumerationLimits,
        cancellation: &Ca,
        sink: &mut T,
        run_id: &str,
        Ghost(before): Ghost<Seq<(ObservationBatch, bool)>>,
    ) -> (ok: bool)
        requires
            T::takes(run_id@),
            old(self).inv(*limits),
            delivered_in_order(handed(old(sink).deliveries()), before, *limits),
            all_accepted(handed(old(sink).deliveries()), before),
            handed(old(sink).deliveries()).len() == before.len() + old(self).report.batches_delivered,
        ensures
            delivered_in_order(handed(final(sink).deliveries()), before, *limits),
            extends_under(final(sink).deliveries(), old(sink).deliveries(), run_id@),
            ok ==> (in_step(old(self), handed(old(sink).deliveries()), before)
                ==> in_step(final(self), handed(final(sink).deliveries()), before)),
            ok ==> all_accepted(handed(final(sink).deliveries()), before),
            ok ==> handed(final(sink).deliveries()).len() == before.len() + final(self).report.batches_delivered,
            ok ==> delivered_then_pending(final(self), handed(final(sink).deliveries()), before)
                == delivered_then_pending(old(self), handed(old(sink).deliveries()), before),
            all_accepted(handed(old(sink).deliveries()), before) && !all_accepted(handed(final(sink).deliveries()), before)
                ==> final(self).status == Some(Outcome::SinkFailed) || final(self).status == Some(Outcome::ResourceLimit),
            final(self).status == Some(Outcome::SinkFailed) && old(self).status != Some(Outcome::SinkFailed)
                ==> !all_accepted(handed(final(sink).deliveries()), before),
            !ok ==> !cancellation.never_cancels() || final(self).status == Some(Outcome::SinkFailed) || final(self).status == Some(Outcome::ResourceLimit),
            old(self).pending@.len() == 0 ==> ok && final(sink).deliveries() == old(sink).deliveries(),
            ok && old(self).pending@.len() > 0 ==> handed(final(sink).deliveries()).len() == handed(old(sink).deliveries()).len() + 1
                && handed(final(sink).deliveries()).last().0.records@ == old(self).pending@,
            ok && old(self).pending@.len() > 0 ==> handed(final(sink).deliveries()).last().0.estimated_bytes == old(self).pending_bytes,
            ok && packing_ok(old(self), handed(old(sink).deliveries()), before, *limits)
                ==> packed(handed(final(sink).deliveries()), before, *limits),
            ok && packing_ok(old(self), handed(old(sink).deliveries()), before, *limits)
                && (old(self).pending@.len() == 0 || old(self).pending@.len() == limits.max_batch_records)
                ==> packing_ok(final(self), handed(final(sink).deliveries()), before, *limits),
            final(self).inv(*limits),
            final(self).pending@.len() == 0,
            final(self).report.directories_visited == old(self).report.directories_visited,
            final(self).report.entries_examined == old(self).report.entries_examined,
            final(self).report.observations_discovered == old(self).report.observations_discovered,
            final(self).report.coverage_failures == old(self).report.coverage_failures,
            final(self).stack == old(self).stack,
            final(self).seen == old(self).seen,
            final(self).path_bytes == old(self).path_bytes,
            final(self).pending_path_bytes == old(self).pending_path_bytes,
            final(self).root_identity == old(self).root_identity,
            final(sink).drops() == old(sink).drops(),
            ok ==> final(self).status == old(self).status,
    {
        let ghost d0 = sink.deliveries();
        if self.pending.len() == 0 {
            return true;
        }
        if cancellation.is_cancelled() {
            self.pending.clear();
            self.pending_bytes = 0;
            return false;
        }
        if self.report.batches_delivered >= limits.max_batches {
            self.pending.clear();
            self.pending_bytes = 0;
            self.status = Some(Outcome::ResourceLimit);
            return false;
        }
        let mut records: Vec<Observation> = Vec::new();
        std::mem::swap(&mut records, &mut self.pending);
        let batch = ObservationBatch { sequence: self.next_batch_sequence, records, estimated_bytes: self.pending_bytes };
        self.pending_bytes = 0;
        let ghost offered = handed(sink.deliveries());
        let ghost sent = batch;
        let accepted = sink.deliver(run_id, batch);
        let ghost now = handed(sink.deliveries());
        proof {
            assert(now =~= offered.push((sent, accepted is Ok)));
            assert(batch_ok(sent, offered.len() - before.len(), *limits));
            assert forall|i: int| before.len() <= i < now.len()
                implies #[trigger] batch_ok(now[i].0, i - before.len(), *limits) by {
                if i < offered.len() {
                    assert(now[i] == offered[i]);
                }
            }
            assert forall|i: int| before.len() <= i < now.len() - 1 implies (#[trigger] now[i]).1 by {
                assert(now[i] == offered[i]);
            }
            assert(now.subrange(0, before.len() as int) =~= offered.subrange(0, before.len() as int));
            assert(extends_under(sink.deliveries(), d0, run_id@));
        }
        match accepted {
            Ok(()) => {
                assert(self.status == old(self).status);
                self.next_batch_sequence = self.next_batch_sequence.saturating_add(1);
                self.report.batches_delivered = self.report.batches_delivered.saturating_add(1);
                proof {
                    lemma_records_push(offered.subrange(before.len() as int, offered.len() as int), (sent, true));
                    lemma_records_of_push(offered.subrange(before.len() as int, offered.len() as int), (sent, true));
                    assert(self.pending@.map_values(|o: Observation| record_view(o))
                        =~= Seq::<(Seq<char>, u64, i128, Option<QualifiedIdentity>)>::empty());
                    assert(now.subrange(before.len() as int, now.len() as int)
                        =~= offered.subrange(before.len() as int, offered.len() as int).push((sent, true)));
                    assert forall|i: int| before.len() <= i < now.len() implies (#[trigger] now[i]).1 by {
                        if i < offered.len() {
                            assert(now[i] == offered[i]);
                        }
                    }
                    assert forall|i: int| before.len() <= i < now.len() - 1 && packing_ok(old(self), offered, before, *limits)
                        implies #[trigger] packed_at(now, i, *limits) by {
                        assert(now[i] == offered[i]);
                        if i + 1 < offered.len() {
                            assert(now[i + 1] == offered[i + 1]);
                            assert(packed_at(offered, i, *limits));
                        } else {
                            assert(now[i + 1].0 == sent);
                            assert(offered.last() == offered[i]);
                        }
                    }
                }
                true
            },
            Err(SinkError::ResourceLimit) => {
                assert(!now[offered.len() as int].1);
                self.status = Some(Outcome::ResourceLimit);
                false
            },
            Err(_) => {
                assert(!now[offered.len() as int].1);
                self.status = Some(Outcome::SinkFailed);
                false
            },
        }
    }

    /// Adds an observation to the pending batch, flushing first when it
    /// would overflow the batch and after it when the batch is full.
    fn append_observation<M, T: Staging<M>, Ca: Cancellation>(
        &mut self,
        limits: &EnumerationLimits,
        cancellation: &Ca,
        sink: &mut T,
        run_id: &str,
        observation: Observation,
        Ghost(before): Ghost<Seq<(ObservationBatch, bool)>>,
    ) -> (ok: bool)
        requires
            T::takes(run_id@),
            flp_record(observation),
            old(self).inv(*limits),
            old(self).report.observations_discovered < limits.max_observations,
            limits.max_batch_records > 0,
            delivered_in_order(handed(old(sink).deliveries()), before, *limits),
            all_accepted(handed(old(sink).deliveries()), before),
            handed(old(sink).deliveries()).len() == before.len() + old(self).report.batches_delivered,
        ensures
            delivered_in_order(handed(final(sink).deliveries()), before, *limits),
            extends_under(final(sink).deliveries(), old(sink).deliveries(), run_id@),
            ok ==> (in_step(old(self), handed(old(sink).deliveries()), before)
                ==> in_step(final(self), handed(final(sink).deliveries()), before)),
            ok ==> all_accepted(handed(final(sink).deliveries()), before),
            ok ==> handed(final(sink).deliveries()).len() == before.len() + final(self).report.batches_delivered,
            ok ==> delivered_then_pending(final(self), handed(final(sink).deliveries()), before)
                == delivered_then_pending(old(self), handed(old(sink).deliveries()), before).push(record_view(observation)),
            all_accepted(handed(old(sink).deliveries()), before) && !all_accepted(handed(final(sink).deliveries()), before)
                ==> final(self).status == Some(Outcome::SinkFailed) || final(self).status == Some(Outcome::ResourceLimit),
            final(self).status == Some(Outcome::SinkFailed) && old(self).status != Some(Outcome::SinkFailed)
                ==> !all_accepted(handed(final(sink).deliveries()), before),
            ok && packing_ok(old(self), handed(old(sink).deliveries()), before, *limits)
                ==> packing_ok(final(self), handed(final(sink).deliveries()), before, *limits),
            final(self).inv(*limits),
            final(self).report.directories_visited == old(self).report.directories_visited,
            final(self).report.entries_examined == old(self).report.entries_examined,
            final(self).report.coverage_failures == old(self).report.coverage_failures,
            final(self).stack == old(self).stack,
            final(self).seen == old(self).seen,
            final(self).path_bytes == old(self).path_bytes,
            final(self).pending_path_bytes == old(self).pending_path_bytes,
            final(self).root_identity == old(self).root_identity,
            final(sink).drops() == old(sink).drops(),
            ok ==> final(self).status == old(self).status,
            staged_size(observation) > limits.max_batch_bytes ==> !ok && *final(self) == *old(self)
                && final(sink).deliveries() == old(sink).deliveries(),
            ok ==> final(self).report.observations_discovered == old(self).report.observations_discovered + 1,
            ok ==> (final(self).pending@.len() > 0 && final(self).pending@.last() == observation)
                || (final(self).pending@.len() == 0 && handed(final(sink).deliveries()).len() > 0
                    && handed(final(sink).deliveries()).last().0.records@.len() > 0
                    && handed(final(sink).deliveries()).last().0.records@.last() == observation),
            staged_size(observation) <= limits.max_batch_bytes
                && !(old(self).pending@.len() != 0 && (old(self).pending@.len() >= limits.max_batch_records
                    || old(self).pending_bytes + staged_size(observation) > limits.max_batch_bytes))
                && old(self).pending@.len() + 1 < limits.max_batch_records ==> ok,
    {
        let bytes = observation.estimated_bytes();
        if bytes > limits.max_batch_bytes {
            return false;
        }
        if self.pending.len() != 0
            && (self.pending.len() >= limits.max_batch_records || self.pending_bytes.saturating_add(bytes) > limits.max_batch_bytes) {
            if !self.flush_pending(limits, cancellation, sink, run_id, Ghost(before)) {
                return false;
            }
        }
        let ghost mid = delivered_then_pending(self, handed(sink.deliveries()), before);
        let ghost pending0 = self.pending@;
        self.pending_bytes = self.pending_bytes.saturating_add(bytes);
        self.pending.push(observation);
        assert(self.pending@.map_values(|o: Observation| record_view(o))
            =~= pending0.map_values(|o: Observation| record_view(o)).push(record_view(observation)));
        assert(delivered_then_pending(self, handed(sink.deliveries()), before) =~= mid.push(record_view(observation)));
        self.report.observations_discovered = self.report.observations_discovered.saturating_add(1);
        if self.pending.len() >= limits.max_batch_records {
            return self.flush_pending(limits, cancellation, sink, run_id, Ghost(before));
        }
        true
    }

    /// The outcome when an observation could not be staged.
    fn append_failure_outcome<Ca: Cancellation>(&mut self, cancellation: &Ca) -> (o: Outcome)
        requires
            old(self).status != Some(Outcome::Complete),
            old(self).status != Some(Outcome::Cancelled),
        ensures
            o != Outcome::Complete,
            o == Outcome::Cancelled ==> !cancellation.never_cancels() && final(self).status == old(self).status,
            o != Outcome::Cancelled ==> final(self).status == Some(o),
            o == Outcome::Cancelled || o == match old(self).status {
                Some(s) => s,
                None => Outcome::ResourceLimit,
            },
            final(self).report == old(self).report,
            final(self).pending == old(self).pending,
            final(self).pending_bytes == old(self).pending_bytes,
            final(self).seen == old(self).seen,
            final(self).next_batch_sequence == old(self).next_batch_sequence,
    {
        if cancellation.is_cancelled() {
            Outcome::Cancelled
        } else {
            let outcome = match self.status {
                Some(o) => o,
                None => Outcome::ResourceLimit,
            };
            self.status = Some(outcome);
            outcome
        }
    }

    /// Reports progress when forced or when the progress interval has
    /// passed since the last report.
    fn emit_progress<R: ProgressSink>(&mut self, limits: &EnumerationLimits, progress: &mut R, force: bool, outcome: Option<Outcome>)
        ensures
            final(self).report == old(self).report,
            final(self).status == old(self).status,
            final(self).stack == old(self).stack,
            final(self).pending == old(self).pending,
            final(self).pending_bytes == old(self).pending_bytes,
            final(self).seen == old(self).seen,
            final(self).path_bytes == old(self).path_bytes,
            final(self).pending_path_bytes == old(self).pending_path_bytes,
            final(self).root_identity == old(self).root_identity,
            final(self).next_batch_sequence == old(self).next_batch_sequence,
            final(progress).records_reports() == old(progress).records_reports(),
            old(progress).records_reports() ==> final(progress).reported() == old(progress).reported()
                || final(progress).reported() == old(progress).reported().push(progress_update(old(self).report, force, outcome)),
            force && old(progress).records_reports()
                ==> final(progress).reported() == old(progress).reported().push(progress_update(old(self).report, force, outcome)),
    {
        let now = super::time::now();
        let should_emit = force || match &self.last_progress {
            None => true,
            Some(last) => {
                let elapsed = super::time::duration_since(&now, last);
                super::time::nanos(&elapsed) >= super::time::nanos(&limits.progress_interval)
            },
        };
        if should_emit {
            self.last_progress = Some(now);
            progress.report(ProgressUpdate {
                directories_visited: self.report.directories_visited,
                entries_examined: self.report.entries_examined,
                observations_discovered: self.report.observations_discovered,
                final_update: force,
                outcome,
            });
        }
    }
}

/// The path of an entry named `name` inside the directory at `parent`, as
/// joined before normalization.
fn join_child(parent: &Option<DisplayRelativePath>, name: &String) -> (r: String)
    ensures
        r@ == match parent {
            None => name@,
            Some(p) => p@ + seq!['\\'] + name@,
        },
{
    let chars = chars_of(name.as_str());
    let mut out = match parent {
        None => String::new(),
        Some(p) => {
            let base = chars_of(p.as_str());
            let mut o = crate::text::string_from_chars(&base);
            push_char(&mut o, '\\');
            o
        },
    };
    let ghost base = out@;
    let mut i: usize = 0;
    while i < chars.len()
        invariant
            i <= chars@.len(),
            out@ == base + chars@.subrange(0, i as int),
        decreases chars.len() - i,
    {
        push_char(&mut out, chars[i]);
        i = i + 1;
        assert(out@ =~= base + chars@.subrange(0, i as int));
    }
    assert(chars@.subrange(0, chars@.len() as int) =~= chars@);
    proof {
        match parent {
            None => assert(out@ =~= name@),
            Some(p) => assert(out@ =~= p@ + seq!['\\'] + name@),
        }
    }
    out
}

/// What the walk promises of a finished run, before the sink is told.
pub open spec fn run_result(o: Outcome, report: EnumerationReport, status: Option<Outcome>, root: Seq<char>, limits: EnumerationLimits) -> bool {
    &&& report_bounded(report, status, limits)
    &&& (o == Outcome::Complete ==> status is None)
    &&& (!limits_valid(&limits) ==> o == Outcome::Invalid && report.coverage_failures@ == (if limits.max_diagnostics > 0 {
            seq![CoverageFailure { display_path: None, kind: CoverageFailureKind::InvalidLimits }]
        } else {
            seq![]
        }))
    &&& (limits_valid(&limits) && root_path_error(root, limits.max_path_bytes) is Some ==> o == Outcome::Invalid
        && report.coverage_failures@ == (if limits.max_diagnostics > 0 {
            seq![CoverageFailure { display_path: None, kind: CoverageFailureKind::InvalidRoot }]
        } else {
            seq![]
        }))
}

#[verifier::spinoff_prover]
#[verifier::rlimit(40)]
fn run<P: FilesystemPort, M, T: Staging<M>, Ca: Cancellation, R: ProgressSink>(
    st: &mut EngineState<P::Cursor>,
    port: &mut P,
    root: &str,
    limits: &EnumerationLimits,
    cancellation: &Ca,
    sink: &mut T,
    run_id: &str,
    progress: &mut R,
) -> (o: Outcome)
    requires
        T::takes(run_id@),
        old(st).inv(*limits),
        old(st).status is None,
        old(st).report.coverage_failures@.len() == 0,
        old(st).report.directories_visited == 0,
        old(st).report.entries_examined == 0,
        old(st).stack@.len() == 0,
        old(st).report.observations_discovered == 0,
        old(st).report.batches_delivered == 0,
        old(st).pending@.len() == 0,
    ensures
        final(st).inv(*limits),
        root_requests(final(port).roots_asked(), old(port).roots_asked(), root@, *limits, o),
        run_result(o, final(st).report, final(st).status, root@, *limits),
        final(sink).drops() == old(sink).drops(),
        delivered_in_order(handed(final(sink).deliveries()), handed(old(sink).deliveries()), *limits),
        extends_under(final(sink).deliveries(), old(sink).deliveries(), run_id@),
        o == Outcome::Complete ==> in_step(final(st), handed(final(sink).deliveries()), handed(old(sink).deliveries())) && final(st).pending@.len() == 0,
        o == Outcome::Complete ==> final(st).report.entries_examined <= limits.max_entries,
        outcome_explained(o, final(st).report),
        final(st).report.entries_examined > limits.max_entries ==> o == Outcome::ResourceLimit,
        o == Outcome::Cancelled ==> !cancellation.never_cancels(),
        sink_explains(o, handed(final(sink).deliveries()), handed(old(sink).deliveries()), cancellation.never_cancels()),
        limits_valid(limits) && root_path_error(root@, limits.max_path_bytes) is None
            ==> no_input_failures(final(st).report.coverage_failures@),
        o == Outcome::Complete ==> packed(handed(final(sink).deliveries()), handed(old(sink).deliveries()), *limits),
        old(port).lists_fixed_tree() && o == Outcome::Complete ==> walk(old(port).tree(), root_frames(),
            (final(st).report.entries_examined + final(st).report.directories_visited) as nat) == Some(records_of(
            handed(final(sink).deliveries()).subrange(handed(old(sink).deliveries()).len() as int, handed(final(sink).deliveries()).len() as int),
        )),
        final(progress).records_reports() == old(progress).records_reports(),
{
    let ghost discards = sink.drops();
    let ghost before = handed(sink.deliveries());
    assert(before.subrange(0, before.len() as int) =~= before);
    assert(before.subrange(before.len() as int, before.len() as int) =~= Seq::<(ObservationBatch, bool)>::empty());
    let ghost empty = st.report.coverage_failures@;
    let ghost fixed = port.lists_fixed_tree();
    let ghost tree = port.tree();
    let ghost mut steps: nat = 0;
    let ghost mut emitted: Seq<(Seq<char>, u64, i128, Option<QualifiedIdentity>)> = Seq::empty();
    if limits.validate().is_err() {
        st.add_failure(limits, None, CoverageFailureKind::InvalidLimits, Outcome::Invalid);
        assert(empty.push(CoverageFailure { display_path: None, kind: CoverageFailureKind::InvalidLimits })
            =~= seq![CoverageFailure { display_path: None, kind: CoverageFailureKind::InvalidLimits }]);
        assert(empty =~= Seq::<CoverageFailure>::empty());
        return Outcome::Invalid;
    }
    if validate_root_path(root, limits.max_path_bytes).is_err() {
        st.add_failure(limits, None, CoverageFailureKind::InvalidRoot, Outcome::Invalid);
        assert(empty.push(CoverageFailure { display_path: None, kind: CoverageFailureKind::InvalidRoot })
            =~= seq![CoverageFailure { display_path: None, kind: CoverageFailureKind::InvalidRoot }]);
        assert(empty =~= Seq::<CoverageFailure>::empty());
        return Outcome::Invalid;
    }
    if cancellation.is_cancelled() {
        return Outcome::Cancelled;
    }
    let initial_root = match port.inspect_root(root) {
        Ok(value) => value,
        Err(error) => {
            st.record_root_port_error(limits, error);
            return match st.status {
                Some(o) => o,
                None => Outcome::RootUnavailable,
            };
        },
    };
    st.report.root_qualification = Some(initial_root.qualification);
    match st.validate_root_metadata(limits, &initial_root) {
        Some(outcome) => return outcome,
        None => {},
    }
    st.root_identity = initial_root.metadata.identity;
    let opened_root = match port.open_root(root) {
        Ok(opened) => opened,
        Err(error) => {
            st.record_root_port_error(limits, error);
            return match st.status {
                Some(o) => o,
                None => Outcome::RootUnavailable,
            };
        },
    };
    match st.validate_opened_root(limits, &initial_root.metadata, &opened_root.metadata) {
        Some(outcome) => return outcome,
        None => {},
    }
    st.stack.push(DirectoryWork { relative: None, path_bytes: 0, key: Vec::new(), opened: opened_root });
    proof {
        if fixed {
            assert(stack_frames(st.stack@) =~= root_frames());
            lemma_walk_start(tree);
        }
        assert(st.pending@.map_values(|o: Observation| record_view(o)) =~= emitted);
        assert(handed(sink.deliveries()).subrange(before.len() as int, handed(sink.deliveries()).len() as int)
            =~= Seq::<(ObservationBatch, bool)>::empty());
        assert(delivered_then_pending(st, handed(sink.deliveries()), before) =~= emitted);
    }

    loop
        invariant_except_break
            limits_valid(limits),
            root_path_error(root@, limits.max_path_bytes) is None,
            port.roots_asked() == old(port).roots_asked().push(root@).push(root@),
            st.inv(*limits),
            st.report.entries_examined <= limits.max_entries,
            sink.drops() == discards,
            discards == old(sink).drops(),
            before == handed(old(sink).deliveries()),
            progress.records_reports() == old(progress).records_reports(),
            delivered_in_order(handed(sink.deliveries()), before, *limits),
            extends_under(sink.deliveries(), old(sink).deliveries(), run_id@),
            T::takes(run_id@),
            in_step(st, handed(sink.deliveries()), before),
            packing_ok(st, handed(sink.deliveries()), before, *limits),
            no_input_failures(st.report.coverage_failures@),
            st.status != Some(Outcome::SinkFailed),
            fixed == old(port).lists_fixed_tree(),
            tree == old(port).tree(),
            fixed ==> stack_on_tree(st.stack@, tree),
            fixed && st.status is None ==> walk_prefix(tree, steps, emitted, stack_frames(st.stack@)),
            delivered_then_pending(st, handed(sink.deliveries()), before) == emitted,
            steps == st.report.entries_examined + st.report.directories_visited,
        invariant
            limits_valid(limits),
            root_path_error(root@, limits.max_path_bytes) is None,
            port.roots_asked() == old(port).roots_asked().push(root@).push(root@),
            st.inv(*limits),
            sink.drops() == discards,
            discards == old(sink).drops(),
            before == handed(old(sink).deliveries()),
            progress.records_reports() == old(progress).records_reports(),
            delivered_in_order(handed(sink.deliveries()), before, *limits),
            extends_under(sink.deliveries(), old(sink).deliveries(), run_id@),
            T::takes(run_id@),
            in_step(st, handed(sink.deliveries()), before),
            packing_ok(st, handed(sink.deliveries()), before, *limits),
            no_input_failures(st.report.coverage_failures@),
            st.status != Some(Outcome::SinkFailed),
            fixed == old(port).lists_fixed_tree(),
            tree == old(port).tree(),
            fixed ==> stack_on_tree(st.stack@, tree),
            fixed && st.status is None ==> walk_prefix(tree, steps, emitted, stack_frames(st.stack@)),
            delivered_then_pending(st, handed(sink.deliveries()), before) == emitted,
            steps == st.report.entries_examined + st.report.directories_visited,
        ensures
            st.stack@.len() == 0,
            st.report.entries_examined <= limits.max_entries,
        decreases limits.max_directories - st.report.directories_visited,
    {
        let ghost stack0 = st.stack@;
        let work = match st.stack.pop() {
            Some(w) => w,
            None => break,
        };
        proof {
            assert(stack_frames(stack0) =~= seq![work_frame(work)] + stack_frames(st.stack@));
        }
        st.pending_path_bytes = st.pending_path_bytes.saturating_sub(work.path_bytes);
        if cancellation.is_cancelled() {
            return Outcome::Cancelled;
        }
        if st.report.directories_visited >= limits.max_directories {
            st.status = Some(Outcome::ResourceLimit);
            return Outcome::ResourceLimit;
        }
        let parent_case_sensitivity = work.opened.case_sensitivity;
        let parent_key = work.key;
        let parent_relative = work.relative;
        let mut cursor = work.opened.cursor;
        st.report.directories_visited = st.report.directories_visited + 1;
        let ghost visited = st.report.directories_visited;
        loop
            invariant_except_break
                limits_valid(limits),
                root_path_error(root@, limits.max_path_bytes) is None,
                port.roots_asked() == old(port).roots_asked().push(root@).push(root@),
                st.inv(*limits),
                st.report.directories_visited == visited,
                st.report.entries_examined <= limits.max_entries,
                sink.drops() == discards,
                discards == old(sink).drops(),
                before == handed(old(sink).deliveries()),
                progress.records_reports() == old(progress).records_reports(),
                delivered_in_order(handed(sink.deliveries()), before, *limits),
            extends_under(sink.deliveries(), old(sink).deliveries(), run_id@),
            T::takes(run_id@),
                in_step(st, handed(sink.deliveries()), before),
                packing_ok(st, handed(sink.deliveries()), before, *limits),
                no_input_failures(st.report.coverage_failures@),
                st.status != Some(Outcome::SinkFailed),
            st.status != Some(Outcome::SinkFailed),
            no_input_failures(st.report.coverage_failures@),
            st.status != Some(Outcome::SinkFailed),
            packing_ok(st, handed(sink.deliveries()), before, *limits),
            no_input_failures(st.report.coverage_failures@),
            st.status != Some(Outcome::SinkFailed),
                fixed == old(port).lists_fixed_tree(),
                tree == old(port).tree(),
                fixed ==> stack_on_tree(st.stack@, tree) && cursor.lists_fixed_tree() && cursor.tree() == tree,
                delivered_then_pending(st, handed(sink.deliveries()), before) == emitted,
                steps + 1 == st.report.entries_examined + st.report.directories_visited,
                fixed && st.status is None ==> walk_prefix(tree, steps, emitted,
                    seq![(cursor.dir(), relative_view(parent_relative), cursor.position())] + stack_frames(st.stack@)),
            invariant
                limits_valid(limits),
                root_path_error(root@, limits.max_path_bytes) is None,
                port.roots_asked() == old(port).roots_asked().push(root@).push(root@),
                st.inv(*limits),
                st.report.directories_visited == visited,
                st.report.entries_examined <= limits.max_entries,
                sink.drops() == discards,
                discards == old(sink).drops(),
                before == handed(old(sink).deliveries()),
                progress.records_reports() == old(progress).records_reports(),
                delivered_in_order(handed(sink.deliveries()), before, *limits),
            extends_under(sink.deliveries(), old(sink).deliveries(), run_id@),
            T::takes(run_id@),
                in_step(st, handed(sink.deliveries()), before),
                packing_ok(st, handed(sink.deliveries()), before, *limits),
                no_input_failures(st.report.coverage_failures@),
                st.status != Some(Outcome::SinkFailed),
            st.status != Some(Outcome::SinkFailed),
            no_input_failures(st.report.coverage_failures@),
            st.status != Some(Outcome::SinkFailed),
            packing_ok(st, handed(sink.deliveries()), before, *limits),
            no_input_failures(st.report.coverage_failures@),
            st.status != Some(Outcome::SinkFailed),
                fixed == old(port).lists_fixed_tree(),
                tree == old(port).tree(),
                fixed ==> stack_on_tree(st.stack@, tree) && cursor.lists_fixed_tree() && cursor.tree() == tree,
                delivered_then_pending(st, handed(sink.deliveries()), before) == emitted,
            ensures
                fixed && st.status is None ==> walk_prefix(tree, steps, emitted, stack_frames(st.stack@)),
                steps == st.report.entries_examined + st.report.directories_visited,
            decreases limits.max_entries - st.report.entries_examined,
        {
            let ghost frame0 = (cursor.dir(), relative_view(parent_relative), cursor.position());
            let ghost cur0 = seq![frame0] + stack_frames(st.stack@);
            let ghost steps0 = steps;
            let ghost emitted0 = emitted;
            if cancellation.is_cancelled() {
                return Outcome::Cancelled;
            }
            let entry = match cursor.next_entry() {
                Ok(Some(entry)) => entry,
                Ok(None) => {
                    proof {
                        if fixed && st.status is None {
                            lemma_walk_advance(tree, steps, emitted, cur0);
                            assert(next_frames(tree, cur0) =~= stack_frames(st.stack@));
                            assert(emitted + step_records(tree, cur0) =~= emitted);
                        }
                        steps = steps + 1;
                    }
                    break;
                },
                Err(error) => {
                    st.record_directory_error(limits, parent_relative.clone(), error);
                    if error == PortError::ResourceLimit {
                        return Outcome::ResourceLimit;
                    }
                    proof {
                        steps = steps + 1;
                    }
                    break;
                },
            };
            proof {
                steps = steps + 1;
            }
            if st.report.entries_examined >= limits.max_entries {
                st.report.entries_examined = st.report.entries_examined.saturating_add(1);
                st.status = Some(Outcome::ResourceLimit);
                return Outcome::ResourceLimit;
            }
            st.report.entries_examined = st.report.entries_examined + 1;
            if cancellation.is_cancelled() {
                return Outcome::Cancelled;
            }
            let name = match &entry.name {
                Some(name) => name,
                None => {
                    st.add_failure(limits, None, CoverageFailureKind::InvalidEntryName, Outcome::Invalid);
                    st.emit_progress(limits, progress, false, None);
                    continue;
                },
            };
            if validate_entry_name(name.as_str()).is_err() {
                st.add_failure(limits, None, CoverageFailureKind::InvalidEntryName, Outcome::Invalid);
                st.emit_progress(limits, progress, false, None);
                continue;
            }
            let child_relative = join_child(&parent_relative, name);
            let (display_path, locator) = match normalize_relative_path(child_relative.as_str()) {
                Ok(value) => value,
                Err(_) => {
                    st.add_failure(limits, None, CoverageFailureKind::InvalidEntryName, Outcome::Invalid);
                    st.emit_progress(limits, progress, false, None);
                    continue;
                },
            };
            let ghost shown_path = display_path@;
            let key = child_key(&parent_key, name.as_str(), parent_case_sensitivity);
            if !st.reserve_path_bytes(limits, display_path.as_str().len()) {
                st.status = Some(Outcome::ResourceLimit);
                return Outcome::ResourceLimit;
            }
            let metadata = match cursor.read_metadata(&entry) {
                Ok(metadata) => metadata,
                Err(error) => {
                    st.record_metadata_error(limits, display_path, error);
                    if error == PortError::ResourceLimit {
                        return Outcome::ResourceLimit;
                    }
                    st.emit_progress(limits, progress, false, None);
                    continue;
                },
            };
            match entry_action(name.as_str(), &metadata) {
                EntryAction::Changed => {
                    st.add_failure(limits, Some(display_path), CoverageFailureKind::DirectoryChanged, Outcome::Partial);
                },
                EntryAction::Exclude(reason) => {
                    st.add_exclusion(limits, display_path, reason);
                    proof {
                        if fixed && st.status is None {
                            lemma_entry_passed(tree, steps0, emitted0, frame0, stack_frames(st.stack@), *name, shown_path, metadata);
                        }
                    }
                },
                EntryAction::Skip => {
                    proof {
                        if fixed && st.status is None {
                            lemma_entry_passed(tree, steps0, emitted0, frame0, stack_frames(st.stack@), *name, shown_path, metadata);
                        }
                    }
                },
                EntryAction::Descend => {
                    let pending_path_bytes = display_path.as_str().len();
                    if st.stack.len() >= limits.max_pending_directories
                        || st.pending_path_bytes.saturating_add(pending_path_bytes) > limits.max_pending_path_bytes {
                        st.status = Some(Outcome::ResourceLimit);
                        return Outcome::ResourceLimit;
                    }
                    let opened = match cursor.open_directory(&entry) {
                        Ok(opened) => opened,
                        Err(error) => {
                            st.record_directory_error(limits, Some(display_path.clone()), error);
                            if error == PortError::ResourceLimit {
                                return Outcome::ResourceLimit;
                            }
                            continue;
                        },
                    };
                    if !st.validate_opened_child(limits, &display_path, &metadata, &opened.metadata) {
                        continue;
                    }
                    st.pending_path_bytes = st.pending_path_bytes.saturating_add(pending_path_bytes);
                    let ghost shown = display_path@;
                    let ghost stack1 = st.stack@;
                    st.stack.push(DirectoryWork { relative: Some(display_path), path_bytes: pending_path_bytes, key, opened });
                    proof {
                        assert(stack_frames(st.stack@) =~= seq![work_frame(st.stack@.last())] + stack_frames(stack1));
                        if fixed && st.status is None {
                            lemma_entry_descended(tree, steps0, emitted0, frame0, stack_frames(stack1), *name, shown, metadata);
                        }
                    }
                },
                EntryAction::Observe => {
                    if st.report.observations_discovered >= limits.max_observations {
                        st.status = Some(Outcome::ResourceLimit);
                        return Outcome::ResourceLimit;
                    }
                    if !st.seen.insert(key) {
                        st.add_failure(limits, Some(display_path), CoverageFailureKind::DuplicateLocator, Outcome::Invalid);
                        return Outcome::Invalid;
                    }
                    if metadata.identity.is_none() {
                        st.report.identity_unavailable = st.report.identity_unavailable.saturating_add(1);
                    }
                    proof {
                        let parent = if parent_relative is Some {
                            Some(parent_relative->0@)
                        } else {
                            None::<Seq<char>>
                        };
                        lemma_joined_flp_path(parent, name@, display_path@);
                    }
                    let observation = Observation {
                        locator,
                        display_path,
                        byte_size: metadata.byte_size,
                        modified_unix_ns: metadata.modified_unix_ns,
                        identity: metadata.identity,
                    };
                    let ghost found = record_view(observation);
                    if !st.append_observation(limits, cancellation, sink, run_id, observation, Ghost(before)) {
                        return st.append_failure_outcome(cancellation);
                    }
                    proof {
                        emitted = emitted.push(found);
                        if fixed && st.status is None {
                            lemma_entry_observed(tree, steps0, emitted0, frame0, stack_frames(st.stack@), *name, found.0, metadata);
                        }
                    }
                },
            }
            st.emit_progress(limits, progress, false, None);
        }
    }

    proof {
        if fixed && st.status is None {
            lemma_walk_end(tree, steps, emitted, stack_frames(st.stack@));
        }
    }
    let ghost walked_status = st.status;
    if cancellation.is_cancelled() {
        return Outcome::Cancelled;
    }
    if !st.flush_pending(limits, cancellation, sink, run_id, Ghost(before)) {
        return match st.status {
            Some(o) => o,
            None => Outcome::SinkFailed,
        };
    }
    if cancellation.is_cancelled() {
        return Outcome::Cancelled;
    }
    let final_root = match port.inspect_root(root) {
        Ok(value) => value,
        Err(error) => {
            st.record_root_port_error(limits, error);
            return match st.status {
                Some(o) => o,
                None => Outcome::RootUnavailable,
            };
        },
    };
    match st.validate_final_root(limits, &final_root) {
        Some(outcome) => return outcome,
        None => {},
    }
    proof {
        if st.status is None {
            assert(st.pending@.map_values(|o: Observation| record_view(o))
                =~= Seq::<(Seq<char>, u64, i128, Option<QualifiedIdentity>)>::empty());
            let delivered = records_of(handed(sink.deliveries()).subrange(before.len() as int, handed(sink.deliveries()).len() as int));
            assert(delivered + Seq::<(Seq<char>, u64, i128, Option<QualifiedIdentity>)>::empty() =~= delivered);
        }
    }
    match st.status {
        Some(o) => o,
        None => Outcome::Complete,
    }
}

/// The outcome `o` is at least as severe as each recorded failure's
/// outcome, and an outcome that comes from failures alone (partial,
/// denied, unavailable root, unsupported filesystem, invalid input) is that
/// of a recorded failure or of one counted past the diagnostic budget. Only
/// a cancellation, a limit or the sink stop a run without a failure of
/// their own.
pub open spec fn failures_account_for(o: Outcome, report: EnumerationReport) -> bool {
    &&& forall|i: int| 0 <= i < report.coverage_failures@.len()
        ==> outcome_rank(o) >= outcome_rank(kind_outcome(#[trigger] report.coverage_failures@[i].kind))
    &&& failure_behind(o, report)
}

/// An outcome that comes from failures alone is that of a recorded
/// failure, or of one counted past the diagnostic budget.
pub open spec fn failure_behind(o: Outcome, report: EnumerationReport) -> bool {
    o != Outcome::Complete && o != Outcome::Cancelled && o != Outcome::ResourceLimit && o != Outcome::SinkFailed
        ==> report.omitted_coverage_failures > 0
            || exists|i: int| 0 <= i < report.coverage_failures@.len()
                && kind_outcome(#[trigger] report.coverage_failures@[i].kind) == o
}

/// The check of the root after the walk found it changed, or its identity
/// gone, and reported that failure's own outcome: the last failure
/// recorded, or one counted past the diagnostic budget.
pub open spec fn final_root_check_said(o: Outcome, report: EnumerationReport) -> bool {
    ||| report.omitted_coverage_failures > 0 && (o == Outcome::RootUnavailable || o == Outcome::Partial)
    ||| report.coverage_failures@.len() > 0
        && (report.coverage_failures@.last().kind == CoverageFailureKind::RootChanged
            || report.coverage_failures@.last().kind == CoverageFailureKind::RootIdentityUnavailable)
        && kind_outcome(report.coverage_failures@.last().kind) == o
}

/// What the outcome of a run says of its failures: they account for it,
/// except that the final check of the root reports what it found even
/// after a more severe failure during the walk.
pub open spec fn outcome_explained(o: Outcome, report: EnumerationReport) -> bool {
    ||| failures_account_for(o, report)
    ||| failure_behind(o, report) && final_root_check_said(o, report)
}

/// The engine's status accounts for the failures recorded so far, and is
/// never a cancellation.
spec fn status_explained(status: Option<Outcome>, report: EnumerationReport) -> bool {
    &&& status != Some(Outcome::Cancelled)
    &&& status != Some(Outcome::Complete)
    &&& match status {
        Some(s) => failures_account_for(s, report),
        None => report.coverage_failures@.len() == 0 && report.omitted_coverage_failures == 0,
    }
}

/// What the sink's answers say of the outcome: after a refused batch the
/// run ends as a sink failure, a resource limit (the sink's own) or a
/// cancellation; and a run that cannot be cancelled ends as a sink failure
/// only after the sink refused a batch.
pub open spec fn sink_explains(
    o: Outcome,
    offered: Seq<(ObservationBatch, bool)>,
    before: Seq<(ObservationBatch, bool)>,
    never_cancels: bool,
) -> bool {
    &&& !all_accepted(offered, before) ==> o == Outcome::SinkFailed || o == Outcome::ResourceLimit || o == Outcome::Cancelled
    &&& never_cancels && o == Outcome::SinkFailed ==> !all_accepted(offered, before)
}

/// None of `failures` is a refusal of the limits or of the root.
pub open spec fn no_input_failures(failures: Seq<CoverageFailure>) -> bool {
    forall|i: int| 0 <= i < failures.len() ==> (#[trigger] failures[i]).kind != CoverageFailureKind::InvalidLimits
        && failures[i].kind != CoverageFailureKind::InvalidRoot
}

/// What an enumeration report promises.
pub open spec fn report_promises(report: EnumerationReport, root: Seq<char>, limits: EnumerationLimits) -> bool {
    &&& report.authoritative == (report.outcome == Outcome::Complete)
    &&& (report.outcome == Outcome::Complete ==> report.coverage_failures@.len() == 0 && report.omitted_coverage_failures == 0)
    &&& (report.outcome == Outcome::Complete ==> report.entries_examined <= limits.max_entries)
    &&& outcome_explained(report.outcome, report)
    &&& (report.entries_examined > limits.max_entries ==> report.outcome == Outcome::ResourceLimit)
    &&& (limits_valid(&limits) && root_path_error(root, limits.max_path_bytes) is None
        ==> no_input_failures(report.coverage_failures@))
    &&& report.coverage_failures@.len() <= limits.max_diagnostics
    &&& report.exclusions@.len() <= limits.max_exclusions
    &&& report.directories_visited <= limits.max_directories
    &&& report.observations_discovered <= limits.max_observations
    &&& report.batches_delivered <= limits.max_batches
    &&& (!limits_valid(&limits) ==> report.outcome == Outcome::Invalid && report.coverage_failures@ == (if limits.max_diagnostics > 0 {
            seq![CoverageFailure { display_path: None, kind: CoverageFailureKind::InvalidLimits }]
        } else {
            seq![]
        }))
    &&& (limits_valid(&limits) && root_path_error(root, limits.max_path_bytes) is Some ==> report.outcome == Outcome::Invalid
        && report.coverage_failures@ == (if limits.max_diagnostics > 0 {
            seq![CoverageFailure { display_path: None, kind: CoverageFailureKind::InvalidRoot }]
        } else {
            seq![]
        }))
}

/// The walk with its close: abandons the run for every non-authoritative
/// outcome, then sends the final progress update.
fn enumerate_with<P: FilesystemPort, M, T: Staging<M>, Ca: Cancellation, R: ProgressSink>(
    port: &mut P,
    root: &str,
    limits: &EnumerationLimits,
    cancellation: &Ca,
    sink: &mut T,
    run_id: &str,
    progress: &mut R,
) -> (report: EnumerationReport)
    requires
        T::takes(run_id@),
    ensures
        report_promises(report, root@, *limits),
        cancellation.never_cancels() ==> report.outcome != Outcome::Cancelled,
        sink_explains(report.outcome, handed(final(sink).deliveries()), handed(old(sink).deliveries()), cancellation.never_cancels()),
        root_requests(final(port).roots_asked(), old(port).roots_asked(), root@, *limits, report.outcome),
        final(sink).drops() == old(sink).drops() + if report.authoritative { Seq::<Seq<char>>::empty() } else { seq![run_id@] },
        delivered_in_order(handed(final(sink).deliveries()), handed(old(sink).deliveries()), *limits),
        extends_under(final(sink).deliveries(), old(sink).deliveries(), run_id@),
        report.outcome == Outcome::Complete ==> all_accepted(handed(final(sink).deliveries()), handed(old(sink).deliveries()))
            && handed(final(sink).deliveries()).len() == handed(old(sink).deliveries()).len() + report.batches_delivered
            && records_in(handed(final(sink).deliveries()).subrange(
                handed(old(sink).deliveries()).len() as int,
                handed(final(sink).deliveries()).len() as int,
            )) == report.observations_discovered,
        report.outcome == Outcome::Complete ==> packed(handed(final(sink).deliveries()), handed(old(sink).deliveries()), *limits),
        old(port).lists_fixed_tree() && report.outcome == Outcome::Complete ==> walk(old(port).tree(), root_frames(),
            (report.entries_examined + report.directories_visited) as nat) == Some(records_of(
            handed(final(sink).deliveries()).subrange(handed(old(sink).deliveries()).len() as int, handed(final(sink).deliveries()).len() as int),
        )),
        final(progress).records_reports() == old(progress).records_reports(),
        old(progress).records_reports() ==> final(progress).reported().len() > 0
            && final(progress).reported().last() == progress_update(report, true, Some(report.outcome)),
{
    let mut st: EngineState<P::Cursor> = EngineState::new();
    let outcome = run(&mut st, port, root, limits, cancellation, sink, run_id, progress);
    let ghost dropped = sink.drops();
    if !outcome.is_authoritative() {
        sink.abandon(run_id);
    }
    st.report.outcome = outcome;
    st.report.authoritative = outcome.is_authoritative();
    st.emit_progress(limits, progress, true, Some(outcome));
    assert(sink.drops() =~= dropped + if st.report.authoritative { Seq::<Seq<char>>::empty() } else { seq![run_id@] });
    st.report
}

/// Enumerate one already-selected root into bounded, provisional batches.
/// Every outcome but `Complete` is non-authoritative, and the sink is told
/// to discard the run's batches before the report is returned. The batches
/// reach the sink numbered from zero in order, never empty and within the
/// batch bounds, and nothing is offered after a batch the sink refused; a
/// complete run had every batch accepted and hands over every observation
/// it discovered, packed: every batch but the last holds
/// `max_batch_records` records unless the next record would not fit in its
/// byte budget. Every record is an `.flp` path whose locator is its display
/// path; which entries become records is `entry_action`'s decision. Over a
/// port that lists a fixed tree, a complete run delivers exactly the
/// records of the depth-first `walk` of that tree, in walk order, within
/// the entries and directories it counted: every listing was read out, and
/// a tree whose walk needs more is never complete. Valid limits and a valid
/// root are never refused.
/// The port is asked about `root` alone: never when the limits or the root
/// are refused, at least once otherwise unless the run was cancelled, and
/// to inspect, open and inspect it again on a complete run. The last
/// progress update is the final one and carries the outcome.
pub fn enumerate<P: FilesystemPort, S: BatchSink, Ca: Cancellation, R: ProgressSink>(
    port: &mut P,
    root: &str,
    limits: &EnumerationLimits,
    cancellation: &Ca,
    sink: &mut S,
    progress: &mut R,
) -> (report: EnumerationReport)
    ensures
        report_promises(report, root@, *limits),
        cancellation.never_cancels() ==> report.outcome != Outcome::Cancelled,
        sink_explains(report.outcome, final(sink).offered(), old(sink).offered(), cancellation.never_cancels()),
        root_requests(final(port).roots_asked(), old(port).roots_asked(), root@, *limits, report.outcome),
        final(sink).discards() == old(sink).discards() + if report.authoritative { 0int } else { 1int },
        delivered_in_order(final(sink).offered(), old(sink).offered(), *limits),
        report.outcome == Outcome::Complete ==> all_accepted(final(sink).offered(), old(sink).offered())
            && final(sink).offered().len() == old(sink).offered().len() + report.batches_delivered
            && records_in(final(sink).offered().subrange(old(sink).offered().len() as int, final(sink).offered().len() as int))
                == report.observations_discovered,
        report.outcome == Outcome::Complete ==> packed(final(sink).offered(), old(sink).offered(), *limits),
        old(port).lists_fixed_tree() && report.outcome == Outcome::Complete ==> walk(old(port).tree(), root_frames(),
            (report.entries_examined + report.directories_visited) as nat)
            == Some(records_of(final(sink).offered().subrange(old(sink).offered().len() as int, final(sink).offered().len() as int))),
        final(progress).records_reports() == old(progress).records_reports(),
        old(progress).records_reports() ==> final(progress).reported().len() > 0
            && final(progress).reported().last() == progress_update(report, true, Some(report.outcome)),
{
    let ghost offered0 = sink.offered();
    let ghost discards0 = sink.discards();
    let no_run = "";
    proof {
        reveal_strlit("");
        assert(no_run@ =~= Seq::<char>::empty());
        assert(<S as Staging<ViaSink>>::takes(no_run@));
        lemma_handed_offered(*sink);
    }
    let report = enumerate_with::<P, ViaSink, S, Ca, R>(port, root, limits, cancellation, sink, no_run, progress);
    proof {
        lemma_handed_offered(*sink);
        assert(Staging::<ViaSink>::drops(sink).len() == sink.discards());
        assert(Seq::new(discards0, |i: int| Seq::<char>::empty()).len() == discards0);
    }
    report
}

/// The batches a sink was offered are its delivery log's.
proof fn lemma_handed_offered<B: BatchSink>(b: B)
    ensures
        handed(Staging::<ViaSink>::deliveries(&b)) == b.offered(),
{
    assert(handed(Staging::<ViaSink>::deliveries(&b)) =~= b.offered());
}

/// Enumerate into run-scoped staging. Every batch is staged under `run_id`,
/// numbered and bounded as `enumerate` delivers them, nothing is staged
/// after a refusal, and the run is invalidated exactly once, before this
/// returns, for every non-authoritative outcome. What is staged is what
/// `enumerate` delivers: packed the same way and, over a fixed tree, the
/// records of its walk. A `Complete` report
/// invalidates nothing and leaves the accepted batches staged for the
/// publication owner to fence and commit.
pub fn enumerate_into_run<P: FilesystemPort, S: RunScopedStorage, Ca: Cancellation, R: ProgressSink>(
    port: &mut P,
    root: &str,
    limits: &EnumerationLimits,
    cancellation: &Ca,
    storage: &mut S,
    run_id: &str,
    progress: &mut R,
) -> (report: EnumerationReport)
    ensures
        report_promises(report, root@, *limits),
        cancellation.never_cancels() ==> report.outcome != Outcome::Cancelled,
        sink_explains(report.outcome, handed(final(storage).staging_log()), handed(old(storage).staging_log()), cancellation.never_cancels()),
        root_requests(final(port).roots_asked(), old(port).roots_asked(), root@, *limits, report.outcome),
        final(storage).invalidated_runs() == old(storage).invalidated_runs()
            + if report.authoritative { Seq::<Seq<char>>::empty() } else { seq![run_id@] },
        extends_under(final(storage).staging_log(), old(storage).staging_log(), run_id@),
        delivered_in_order(handed(final(storage).staging_log()), handed(old(storage).staging_log()), *limits),
        report.outcome == Outcome::Complete ==> all_accepted(handed(final(storage).staging_log()), handed(old(storage).staging_log()))
            && handed(final(storage).staging_log()).len() == handed(old(storage).staging_log()).len() + report.batches_delivered
            && records_in(handed(final(storage).staging_log()).subrange(
                handed(old(storage).staging_log()).len() as int,
                handed(final(storage).staging_log()).len() as int,
            )) == report.observations_discovered,
        report.outcome == Outcome::Complete ==> packed(handed(final(storage).staging_log()), handed(old(storage).staging_log()), *limits),
        old(port).lists_fixed_tree() && report.outcome == Outcome::Complete ==> walk(old(port).tree(), root_frames(),
            (report.entries_examined + report.directories_visited) as nat) == Some(records_of(
            handed(final(storage).staging_log()).subrange(
                handed(old(storage).staging_log()).len() as int,
                handed(final(storage).staging_log()).len() as int,
            ),
        )),
        final(progress).records_reports() == old(progress).records_reports(),
        old(progress).records_reports() ==> final(progress).reported().len() > 0
            && final(progress).reported().last() == progress_update(report, true, Some(report.outcome)),
{
    enumerate_with::<P, ViaStorage, S, Ca, R>(port, root, limits, cancellation, storage, run_id, progress)
}

} // verus!
