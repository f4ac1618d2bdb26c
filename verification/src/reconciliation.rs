//! Filesystem-metadata reconciliation for one root, without I/O or persistence.
//!
//! Inputs are boundary-normalized relative paths and qualified local
//! identities. A completed enumeration is necessary but not sufficient for
//! production apply: storage must also fence generation, revision, lease and
//! cancellation atomically. The result is an all-or-nothing proposal.
use vstd::prelude::*;

use crate::text::{chars_eq, chars_lt, chars_of};

verus! {

/// Qualified physical identity, never a logical project identifier.
#[derive(Clone, Copy, Debug, PartialEq, Eq, PartialOrd, Ord, Structural)]
pub struct Identity {
    pub volume: u64,
    pub file: u128,
}

#[derive(Clone, Copy, Debug, PartialEq, Eq, Structural)]
pub struct Metadata {
    pub size: u64,
    pub modified_ns: i128,
    pub identity: Option<Identity>,
}

#[derive(Clone, Debug, PartialEq, Eq)]
pub struct Location {
    pub path: String,
    pub metadata: Metadata,
    pub present: bool,
}

#[derive(Clone, Debug, PartialEq, Eq)]
pub struct Observation {
    pub path: String,
    pub metadata: Metadata,
}

/// End-of-traversal outcome; early EOF without Complete is never authoritative.
#[derive(Clone, Copy, Debug, PartialEq, Eq, Structural)]
pub enum Outcome {
    Complete,
    Partial,
    Cancelled,
    Offline,
    Denied,
    ResourceLimit,
}

#[derive(Clone, Debug, PartialEq, Eq, Structural)]
pub enum Rejected {
    Incomplete(Outcome),
    DuplicatePath,
    InvalidPath,
    ResourceLimit,
}

#[derive(Clone, Debug, PartialEq, Eq)]
pub enum Change {
    Added(String),
    Modified(String),
    Replaced(String),
    Missing(String),
    Restored(String),
    /// Unambiguous same-run physical continuity evidence; histories stay per path.
    RenameEvidence { from: String, to: String },
}

#[derive(Clone, Debug, PartialEq, Eq)]
pub struct Plan {
    /// Deterministic normalized-path order, including retained missing locations.
    pub locations: Vec<Location>,
    pub changes: Vec<Change>,
}

// ----------------------------------------------------------------------------
// Mathematical model
// ----------------------------------------------------------------------------

pub struct LocationView {
    pub path: Seq<char>,
    pub metadata: Metadata,
    pub present: bool,
}

pub struct ObservationView {
    pub path: Seq<char>,
    pub metadata: Metadata,
}

pub enum ChangeView {
    Added(Seq<char>),
    Modified(Seq<char>),
    Replaced(Seq<char>),
    Missing(Seq<char>),
    Restored(Seq<char>),
    RenameEvidence { from: Seq<char>, to: Seq<char> },
}

pub struct PlanView {
    pub locations: Seq<LocationView>,
    pub changes: Seq<ChangeView>,
}

impl View for Location {
    type V = LocationView;

    open spec fn view(&self) -> LocationView {
        LocationView { path: self.path@, metadata: self.metadata, present: self.present }
    }
}

impl View for Observation {
    type V = ObservationView;

    open spec fn view(&self) -> ObservationView {
        ObservationView { path: self.path@, metadata: self.metadata }
    }
}

impl View for Change {
    type V = ChangeView;

    open spec fn view(&self) -> ChangeView {
        match self {
            Change::Added(p) => ChangeView::Added(p@),
            Change::Modified(p) => ChangeView::Modified(p@),
            Change::Replaced(p) => ChangeView::Replaced(p@),
            Change::Missing(p) => ChangeView::Missing(p@),
            Change::Restored(p) => ChangeView::Restored(p@),
            Change::RenameEvidence { from, to } => ChangeView::RenameEvidence { from: from@, to: to@ },
        }
    }
}

impl View for Plan {
    type V = PlanView;

    open spec fn view(&self) -> PlanView {
        PlanView {
            locations: self.locations@.map_values(|l: Location| l@),
            changes: self.changes@.map_values(|c: Change| c@),
        }
    }
}

pub open spec fn locations_view(s: Seq<Location>) -> Seq<LocationView> {
    s.map_values(|l: Location| l@)
}

pub open spec fn observations_view(s: Seq<Observation>) -> Seq<ObservationView> {
    s.map_values(|o: Observation| o@)
}

/// A small reference bound, not the eventual streaming/staging implementation.
pub const MAX_RECORDS: usize = 10_000;
pub const MAX_PATH_BYTES: usize = 32_768;
pub const MAX_TOTAL_PATH_BYTES: usize = 4 * 1024 * 1024;

pub open spec fn is_separator(c: char) -> bool {
    c == '/' || c == '\\'
}

/// `s[i..j]` is one whole separator-delimited component of `s`.
pub open spec fn is_component(s: Seq<char>, i: int, j: int) -> bool {
    &&& 0 <= i <= j <= s.len()
    &&& (i == 0 || is_separator(s[i - 1]))
    &&& (j == s.len() || is_separator(s[j]))
    &&& forall|k: int| i <= k < j ==> !is_separator(#[trigger] s[k])
}

/// The empty, current-directory and parent-directory components.
pub open spec fn is_dot_like(c: Seq<char>) -> bool {
    ||| c.len() == 0
    ||| (c.len() == 1 && c[0] == '.')
    ||| (c.len() == 2 && c[0] == '.' && c[1] == '.')
}

/// A non-empty, non-rooted relative path without colon, NUL, or an empty,
/// `.` or `..` component.
pub open spec fn path_shape_valid(p: Seq<char>) -> bool {
    &&& p.len() > 0
    &&& !is_separator(p[0])
    &&& !p.contains(':')
    &&& !p.contains('\0')
    &&& forall|i: int, j: int| #[trigger] is_component(p, i, j) ==> !is_dot_like(p.subrange(i, j))
}

/// The UTF-8 byte length of a path.
pub open spec fn byte_len(p: Seq<char>) -> int {
    vstd::utf8::encode_utf8(p).len() as int
}

/// Total UTF-8 bytes of `paths[0..k]`.
pub open spec fn bytes_through(paths: Seq<Seq<char>>, k: int) -> int
    decreases k,
{
    if k <= 0 {
        0
    } else {
        bytes_through(paths, k - 1) + byte_len(paths[k - 1])
    }
}

/// Entries `j` and `k` belong to the same input list (the first `split`
/// entries are the previous locations, the rest the observations).
pub open spec fn same_list(split: int, j: int, k: int) -> bool {
    (j < split) == (k < split)
}

/// Why entry `k` is rejected, given that every earlier entry was accepted.
pub open spec fn entry_rejection(paths: Seq<Seq<char>>, split: int, k: int) -> Option<Rejected> {
    if !path_shape_valid(paths[k]) {
        Some(Rejected::InvalidPath)
    } else if byte_len(paths[k]) > MAX_PATH_BYTES || bytes_through(paths, k + 1) > MAX_TOTAL_PATH_BYTES {
        Some(Rejected::ResourceLimit)
    } else if exists|j: int| 0 <= j < k && same_list(split, j, k) && paths[j] == paths[k] {
        Some(Rejected::DuplicatePath)
    } else {
        None
    }
}

/// The rejection of the first rejected entry at or after `k`.
pub open spec fn first_entry_rejection(paths: Seq<Seq<char>>, split: int, k: int) -> Option<Rejected>
    decreases paths.len() - k,
{
    if k < 0 || k >= paths.len() {
        None
    } else {
        match entry_rejection(paths, split, k) {
            Some(e) => Some(e),
            None => first_entry_rejection(paths, split, k + 1),
        }
    }
}

pub open spec fn all_paths(prev: Seq<LocationView>, obs: Seq<ObservationView>) -> Seq<Seq<char>> {
    prev.map_values(|l: LocationView| l.path) + obs.map_values(|o: ObservationView| o.path)
}

/// The rejection `reconcile` answers with, if any.
pub open spec fn rejection(prev: Seq<LocationView>, obs: Seq<ObservationView>, outcome: Outcome) -> Option<Rejected> {
    if outcome != Outcome::Complete {
        Some(Rejected::Incomplete(outcome))
    } else if prev.len() + obs.len() > MAX_RECORDS {
        Some(Rejected::ResourceLimit)
    } else {
        first_entry_rejection(all_paths(prev, obs), prev.len() as int, 0)
    }
}

pub open spec fn prev_has(prev: Seq<LocationView>, p: Seq<char>) -> bool {
    exists|i: int| 0 <= i < prev.len() && #[trigger] prev[i].path == p
}

pub open spec fn obs_has(obs: Seq<ObservationView>, p: Seq<char>) -> bool {
    exists|j: int| 0 <= j < obs.len() && #[trigger] obs[j].path == p
}

pub open spec fn prev_at(prev: Seq<LocationView>, p: Seq<char>) -> LocationView {
    prev[choose|i: int| 0 <= i < prev.len() && #[trigger] prev[i].path == p]
}

pub open spec fn obs_at(obs: Seq<ObservationView>, p: Seq<char>) -> ObservationView {
    obs[choose|j: int| 0 <= j < obs.len() && #[trigger] obs[j].path == p]
}

/// The location recorded for `p`: the observed metadata when observed,
/// otherwise the previous location retained as not present.
pub open spec fn expected_location(prev: Seq<LocationView>, obs: Seq<ObservationView>, p: Seq<char>) -> LocationView {
    if obs_has(obs, p) {
        LocationView { path: p, metadata: obs_at(obs, p).metadata, present: true }
    } else {
        LocationView { path: p, metadata: prev_at(prev, p).metadata, present: false }
    }
}

/// The per-path changes for `p`.
pub open spec fn path_changes(prev: Seq<LocationView>, obs: Seq<ObservationView>, p: Seq<char>) -> Seq<ChangeView> {
    if prev_has(prev, p) && obs_has(obs, p) {
        let before = prev_at(prev, p);
        let after = obs_at(obs, p);
        let restored = if !before.present { seq![ChangeView::Restored(p)] } else { seq![] };
        let changed = if before.metadata.identity is Some && after.metadata.identity is Some
            && before.metadata.identity != after.metadata.identity {
            seq![ChangeView::Replaced(p)]
        } else if before.metadata != after.metadata {
            seq![ChangeView::Modified(p)]
        } else {
            seq![]
        };
        restored + changed
    } else if obs_has(obs, p) {
        seq![ChangeView::Added(p)]
    } else if before_present(prev, p) {
        seq![ChangeView::Missing(p)]
    } else {
        seq![]
    }
}

pub open spec fn before_present(prev: Seq<LocationView>, p: Seq<char>) -> bool {
    prev_has(prev, p) && prev_at(prev, p).present
}

/// Concatenated per-path changes for `paths`, in order.
pub open spec fn changes_for_paths(prev: Seq<LocationView>, obs: Seq<ObservationView>, paths: Seq<Seq<char>>) -> Seq<ChangeView>
    decreases paths.len(),
{
    if paths.len() == 0 {
        seq![]
    } else {
        changes_for_paths(prev, obs, paths.drop_last()) + path_changes(prev, obs, paths.last())
    }
}

pub open spec fn strictly_sorted(s: Seq<Seq<char>>) -> bool {
    forall|a: int, b: int| 0 <= a < b < s.len() ==> crate::text::seq_lt(#[trigger] s[a], #[trigger] s[b])
}

pub open spec fn identity_lt(a: Identity, b: Identity) -> bool {
    a.volume < b.volume || (a.volume == b.volume && a.file < b.file)
}

/// Entry `i` of the previous locations is a present alias of `id`.
pub open spec fn live_alias(prev: Seq<LocationView>, id: Identity, i: int) -> bool {
    0 <= i < prev.len() && prev[i].present && prev[i].metadata.identity == Some(id)
}

pub open spec fn observed_alias(obs: Seq<ObservationView>, id: Identity, j: int) -> bool {
    0 <= j < obs.len() && obs[j].metadata.identity == Some(id)
}

/// `id` had exactly one present alias (entry `i`) and has exactly one
/// observed alias (entry `j`), at different paths, where the old path is no
/// longer observed and the new path was never recorded: unambiguous
/// same-run continuity evidence.
pub open spec fn rename_witness(prev: Seq<LocationView>, obs: Seq<ObservationView>, id: Identity, i: int, j: int) -> bool {
    &&& live_alias(prev, id, i)
    &&& (forall|k: int| #[trigger] live_alias(prev, id, k) ==> k == i)
    &&& observed_alias(obs, id, j)
    &&& (forall|k: int| #[trigger] observed_alias(obs, id, k) ==> k == j)
    &&& prev[i].path != obs[j].path
    &&& !obs_has(obs, prev[i].path)
    &&& !prev_has(prev, obs[j].path)
}

pub open spec fn rename_qualifies(prev: Seq<LocationView>, obs: Seq<ObservationView>, id: Identity) -> bool {
    exists|i: int, j: int| rename_witness(prev, obs, id, i, j)
}

/// `renames` lists the rename evidence of the identities `ids`: exactly the
/// qualifying identities, in ascending identity order.
pub open spec fn renames_for(prev: Seq<LocationView>, obs: Seq<ObservationView>, ids: Seq<Identity>, renames: Seq<ChangeView>) -> bool {
    &&& renames.len() == ids.len()
    &&& (forall|a: int, b: int| 0 <= a < b < ids.len() ==> identity_lt(#[trigger] ids[a], #[trigger] ids[b]))
    &&& (forall|id: Identity| rename_qualifies(prev, obs, id) <==> ids.contains(id))
    &&& (forall|k: int| 0 <= k < ids.len() ==> #[trigger] rename_entry(prev, obs, ids[k], renames[k]))
}

/// `c` is the rename evidence of `id`.
pub open spec fn rename_entry(prev: Seq<LocationView>, obs: Seq<ObservationView>, id: Identity, c: ChangeView) -> bool {
    exists|i: int, j: int| rename_witness(prev, obs, id, i, j)
        && c == (ChangeView::RenameEvidence { from: prev[i].path, to: obs[j].path })
}

/// The plan `reconcile` answers with when it accepts the inputs: one location
/// per known path in ascending path order, the per-path changes in that
/// order, then the rename evidence in ascending identity order.
pub open spec fn plan_matches(prev: Seq<LocationView>, obs: Seq<ObservationView>, plan: PlanView) -> bool {
    let paths = plan.locations.map_values(|l: LocationView| l.path);
    &&& strictly_sorted(paths)
    &&& (forall|p: Seq<char>| paths.contains(p) <==> (prev_has(prev, p) || obs_has(obs, p)))
    &&& (forall|k: int| 0 <= k < plan.locations.len() ==> #[trigger] plan.locations[k] == expected_location(prev, obs, paths[k]))
    &&& plan.changes.len() >= changes_for_paths(prev, obs, paths).len()
    &&& plan.changes.take(changes_for_paths(prev, obs, paths).len() as int) == changes_for_paths(prev, obs, paths)
    &&& exists|ids: Seq<Identity>| renames_for(prev, obs, ids, #[trigger] plan.changes.skip(changes_for_paths(prev, obs, paths).len() as int))
}

// ----------------------------------------------------------------------------
// Path validation
// ----------------------------------------------------------------------------

fn is_separator_char(c: char) -> (r: bool)
    ensures
        r == is_separator(c),
{
    c == '/' || c == '\\'
}

/// Whether `p` has the shape of a boundary-normalized relative path.
pub fn path_shape_ok(p: &Vec<char>) -> (r: bool)
    ensures
        r == path_shape_valid(p@),
{
    let n = p.len();
    if n == 0 {
        return false;
    }
    if is_separator_char(p[0]) {
        return false;
    }
    let mut start: usize = 0;
    let mut i: usize = 0;
    while i < n
        invariant
            n == p@.len(),
            n > 0,
            !is_separator(p@[0]),
            start <= i <= n,
            start == 0 || is_separator(p@[start - 1]),
            forall|k: int| start <= k < i ==> !is_separator(#[trigger] p@[k]),
            forall|k: int| 0 <= k < i ==> p@[k] != ':' && p@[k] != '\0',
            forall|a: int, b: int| #[trigger] is_component(p@, a, b) && b < i ==> !is_dot_like(p@.subrange(a, b)),
        decreases n - i,
    {
        let c = p[i];
        if c == ':' || c == '\0' {
            assert(p@[i as int] == c);
            return false;
        }
        if is_separator_char(c) {
            let len = i - start;
            if len == 0 || (len == 1 && p[start] == '.') || (len == 2 && p[start] == '.' && p[start + 1] == '.') {
                assert(is_component(p@, start as int, i as int));
                assert(is_dot_like(p@.subrange(start as int, i as int)));
                return false;
            }
            proof {
                assert forall|a: int, b: int| #[trigger] is_component(p@, a, b) && b < i + 1 implies !is_dot_like(p@.subrange(a, b)) by {
                    if b == i {
                        // the component ending here starts right after the previous separator
                        if a < start {
                            assert(is_separator(p@[start - 1]));
                            assert(!is_separator(p@[start - 1]));
                        }
                        if a > start {
                            assert(!is_separator(p@[a - 1]));
                        }
                        assert(a == start);
                    }
                }
            }
            start = i + 1;
        }
        i = i + 1;
    }
    let len = n - start;
    if len == 0 || (len == 1 && p[start] == '.') || (len == 2 && p[start] == '.' && p[start + 1] == '.') {
        assert(is_component(p@, start as int, n as int));
        assert(is_dot_like(p@.subrange(start as int, n as int)));
        return false;
    }
    proof {
        assert forall|a: int, b: int| #[trigger] is_component(p@, a, b) implies !is_dot_like(p@.subrange(a, b)) by {
            if b == n {
                if a < start {
                    assert(is_separator(p@[start - 1]));
                    assert(!is_separator(p@[start - 1]));
                }
                if a > start {
                    assert(!is_separator(p@[a - 1]));
                }
                assert(a == start);
            }
        }
        assert(!p@.contains(':'));
        assert(!p@.contains('\0'));
    }
    true
}


pub open spec fn char_views(s: Seq<Vec<char>>) -> Seq<Seq<char>> {
    s.map_values(|v: Vec<char>| v@)
}

fn copy_chars(v: &Vec<char>) -> (r: Vec<char>)
    ensures
        r@ == v@,
{
    let mut r: Vec<char> = Vec::new();
    let mut i: usize = 0;
    while i < v.len()
        invariant
            i <= v.len(),
            r@ == v@.take(i as int),
        decreases v.len() - i,
    {
        r.push(v[i]);
        i = i + 1;
    }
    assert(v@.take(v@.len() as int) =~= v@);
    r
}

/// The index of `p` in `list`, if present.
fn find_chars(list: &Vec<Vec<char>>, p: &Vec<char>) -> (r: Option<usize>)
    ensures
        match r {
            Some(k) => k < list.len() && list@[k as int]@ == p@,
            None => forall|k: int| 0 <= k < list.len() ==> list@[k]@ != p@,
        },
{
    let mut k: usize = 0;
    while k < list.len()
        invariant
            k <= list.len(),
            forall|a: int| 0 <= a < k ==> list@[a]@ != p@,
        decreases list.len() - k,
    {
        if chars_eq(&list[k], p) {
            return Some(k);
        }
        k = k + 1;
    }
    None
}

proof fn lemma_all_paths_index(prev: Seq<LocationView>, obs: Seq<ObservationView>, k: int)
    ensures
        0 <= k < prev.len() ==> all_paths(prev, obs)[k] == prev[k].path,
        prev.len() <= k < prev.len() + obs.len() ==> all_paths(prev, obs)[k] == obs[k - prev.len()].path,
        all_paths(prev, obs).len() == prev.len() + obs.len(),
{
}

/// Checks one candidate entry; on acceptance the running byte total grows.
fn check_entry(
    chars: &Vec<char>,
    byte_count: usize,
    bytes: usize,
    earlier: &Vec<Vec<char>>,
    Ghost(paths): Ghost<Seq<Seq<char>>>,
    Ghost(split): Ghost<int>,
    Ghost(k): Ghost<int>,
    Ghost(list_start): Ghost<int>,
) -> (r: Result<usize, Rejected>)
    requires
        0 <= list_start <= k < paths.len(),
        (list_start == 0 && k < split) || (list_start == split && split <= k),
        paths[k] == chars@,
        byte_count == byte_len(chars@),
        bytes == bytes_through(paths, k),
        bytes <= MAX_TOTAL_PATH_BYTES,
        earlier.len() == k - list_start,
        forall|a: int| 0 <= a < earlier.len() ==> earlier@[a]@ == paths[list_start + a],
        forall|a: int| 0 <= a < list_start ==> !same_list(split, a, k),
    ensures
        match r {
            Ok(b) => entry_rejection(paths, split, k) is None && b == bytes_through(paths, k + 1)
                && b <= MAX_TOTAL_PATH_BYTES
                && (forall|j: int| 0 <= j < k && same_list(split, j, k) ==> paths[j] != paths[k]),
            Err(e) => entry_rejection(paths, split, k) == Some(e),
        },
{
    if !path_shape_ok(chars) {
        return Err(Rejected::InvalidPath);
    }
    if byte_count > MAX_PATH_BYTES || byte_count > MAX_TOTAL_PATH_BYTES - bytes {
        return Err(Rejected::ResourceLimit);
    }
    let next = bytes + byte_count;
    match find_chars(earlier, chars) {
        Some(a) => {
            assert(0 <= list_start + a < k && same_list(split, list_start + a, k)
                && paths[list_start + a] == paths[k]);
            return Err(Rejected::DuplicatePath);
        }
        None => {
            assert forall|j: int| 0 <= j < k && same_list(split, j, k) implies paths[j] != paths[k] by {
                if j >= list_start {
                    assert(earlier@[j - list_start]@ == paths[j]);
                }
            }
        }
    }
    Ok(next)
}

/// Validates the previous locations then the observations, in input order,
/// returning their characters.
fn validate_inputs(previous: &[Location], observed: &[Observation]) -> (r: Result<(Vec<Vec<char>>, Vec<Vec<char>>), Rejected>)
    ensures
        ({
            let pv = locations_view(previous@);
            let ov = observations_view(observed@);
            let fe = first_entry_rejection(all_paths(pv, ov), pv.len() as int, 0);
            match r {
                Err(e) => fe == Some(e),
                Ok((pc, oc)) => fe is None
                    && char_views(pc@) == pv.map_values(|l: LocationView| l.path)
                    && char_views(oc@) == ov.map_values(|o: ObservationView| o.path)
                    && (forall|a: int, b: int| 0 <= a < b < pc.len() ==> pc@[a]@ != pc@[b]@)
                    && (forall|a: int, b: int| 0 <= a < b < oc.len() ==> oc@[a]@ != oc@[b]@),
            }
        }),
{
    let ghost pv = locations_view(previous@);
    let ghost ov = observations_view(observed@);
    let ghost paths = all_paths(pv, ov);
    let ghost split = pv.len() as int;
    let mut prev_chars: Vec<Vec<char>> = Vec::new();
    let mut bytes: usize = 0;
    let mut i: usize = 0;
    while i < previous.len()
        invariant
            pv == locations_view(previous@),
            ov == observations_view(observed@),
            paths == all_paths(pv, ov),
            split == pv.len(),
            previous.len() == split,
            i <= previous.len(),
            prev_chars.len() == i,
            forall|a: int| 0 <= a < i ==> prev_chars@[a]@ == paths[a],
            forall|a: int, b: int| 0 <= a < b < i ==> prev_chars@[a]@ != prev_chars@[b]@,
            bytes == bytes_through(paths, i as int),
            bytes <= MAX_TOTAL_PATH_BYTES,
            first_entry_rejection(paths, split, 0) == first_entry_rejection(paths, split, i as int),
        decreases previous.len() - i,
    {
        proof { lemma_all_paths_index(pv, ov, i as int); }
        let c = chars_of(previous[i].path.as_str());
        let n = previous[i].path.as_str().as_bytes().len();
        match check_entry(&c, n, bytes, &prev_chars, Ghost(paths), Ghost(split), Ghost(i as int), Ghost(0int)) {
            Err(e) => {
                return Err(e);
            }
            Ok(b) => {
                bytes = b;
            }
        }
        proof {
            assert forall|a: int| 0 <= a < i implies prev_chars@[a]@ != c@ by {
                assert(same_list(split, a, i as int));
                assert(paths[a] != paths[i as int]);
            }
        }
        prev_chars.push(c);
        i = i + 1;
    }
    let mut obs_chars: Vec<Vec<char>> = Vec::new();
    let mut j: usize = 0;
    while j < observed.len()
        invariant
            pv == locations_view(previous@),
            ov == observations_view(observed@),
            paths == all_paths(pv, ov),
            split == pv.len(),
            previous.len() == split,
            j <= observed.len(),
            obs_chars.len() == j,
            forall|a: int| 0 <= a < j ==> obs_chars@[a]@ == paths[split + a],
            forall|a: int, b: int| 0 <= a < b < j ==> obs_chars@[a]@ != obs_chars@[b]@,
            bytes == bytes_through(paths, split + j),
            bytes <= MAX_TOTAL_PATH_BYTES,
            first_entry_rejection(paths, split, 0) == first_entry_rejection(paths, split, split + j),
        decreases observed.len() - j,
    {
        proof { lemma_all_paths_index(pv, ov, split + j); }
        let c = chars_of(observed[j].path.as_str());
        let n = observed[j].path.as_str().as_bytes().len();
        match check_entry(&c, n, bytes, &obs_chars, Ghost(paths), Ghost(split), Ghost(split + j), Ghost(split)) {
            Err(e) => {
                return Err(e);
            }
            Ok(b) => {
                bytes = b;
            }
        }
        proof {
            assert forall|a: int| 0 <= a < j implies obs_chars@[a]@ != c@ by {
                assert(same_list(split, split + a, split + j));
                assert(paths[split + a] != paths[split + j]);
            }
        }
        obs_chars.push(c);
        j = j + 1;
    }
    proof {
        assert(char_views(prev_chars@) =~= pv.map_values(|l: LocationView| l.path)) by {
            assert forall|a: int| 0 <= a < split implies char_views(prev_chars@)[a] == pv.map_values(|l: LocationView| l.path)[a] by {
                lemma_all_paths_index(pv, ov, a);
            }
        }
        assert(char_views(obs_chars@) =~= ov.map_values(|o: ObservationView| o.path)) by {
            assert forall|a: int| 0 <= a < ov.len() implies char_views(obs_chars@)[a] == ov.map_values(|o: ObservationView| o.path)[a] by {
                lemma_all_paths_index(pv, ov, split + a);
            }
        }
    }
    Ok((prev_chars, obs_chars))
}


proof fn lemma_push_contains<A>(s: Seq<A>, x: A, p: A)
    ensures
        s.push(x).contains(p) <==> (s.contains(p) || p == x),
{
    if s.push(x).contains(p) {
        let k = choose|k: int| 0 <= k < s.push(x).len() && s.push(x)[k] == p;
        if k < s.len() {
            assert(s[k] == p);
        }
    }
    if s.contains(p) {
        let k = choose|k: int| 0 <= k < s.len() && s[k] == p;
        assert(s.push(x)[k] == p);
    }
    if p == x {
        assert(s.push(x)[s.len() as int] == p);
    }
}

/// Inserts `e` into the strictly sorted `s`, keeping it strictly sorted.
fn insert_sorted(s: &mut Vec<Vec<char>>, e: Vec<char>)
    requires
        strictly_sorted(char_views(old(s)@)),
        !char_views(old(s)@).contains(e@),
    ensures
        strictly_sorted(char_views(final(s)@)),
        char_views(final(s)@).len() == char_views(old(s)@).len() + 1,
        forall|p: Seq<char>| char_views(final(s)@).contains(p) <==> (char_views(old(s)@).contains(p) || p == e@),
{
    let ghost old_v = char_views(s@);
    let mut pos: usize = 0;
    while pos < s.len()
        invariant
            old_v == char_views(s@),
            strictly_sorted(old_v),
            !old_v.contains(e@),
            pos <= s.len(),
            forall|k: int| 0 <= k < pos ==> crate::text::seq_lt(#[trigger] old_v[k], e@),
        ensures
            pos <= s.len(),
            forall|k: int| 0 <= k < pos ==> crate::text::seq_lt(#[trigger] old_v[k], e@),
            pos < s.len() ==> crate::text::seq_lt(e@, old_v[pos as int]),
        decreases s.len() - pos,
    {
        if chars_lt(&e, &s[pos]) {
            break;
        }
        proof {
            assert(old_v[pos as int] == s@[pos as int]@);
            if old_v[pos as int] == e@ {
                assert(old_v.contains(e@));
            }
            crate::text::lemma_seq_lt_total(old_v[pos as int], e@);
        }
        pos = pos + 1;
    }
    let ghost e_v = e@;
    s.insert(pos, e);
    proof {
        let new_v = char_views(s@);
        assert(new_v =~= old_v.insert(pos as int, e_v));
        if pos < old_v.len() {
            assert(old_v[pos as int] == char_views(s@)[pos as int + 1]);
        }
        assert forall|a: int, b: int| 0 <= a < b < new_v.len() implies crate::text::seq_lt(#[trigger] new_v[a], #[trigger] new_v[b]) by {
            if a < pos && b < pos {
                assert(crate::text::seq_lt(old_v[a], old_v[b]));
            } else if a < pos && b == pos {
            } else if a < pos && b > pos {
                assert(crate::text::seq_lt(old_v[a], old_v[b - 1]));
            } else if a == pos {
                if b - 1 > pos {
                    assert(crate::text::seq_lt(old_v[pos as int], old_v[b - 1]));
                    crate::text::lemma_seq_lt_transitive(e_v, old_v[pos as int], old_v[b - 1]);
                }
            } else {
                assert(crate::text::seq_lt(old_v[a - 1], old_v[b - 1]));
            }
        }
        assert forall|p: Seq<char>| new_v.contains(p) <==> (old_v.contains(p) || p == e_v) by {
            if new_v.contains(p) {
                let k = choose|k: int| 0 <= k < new_v.len() && new_v[k] == p;
                if k < pos {
                    assert(old_v[k] == p);
                } else if k > pos {
                    assert(old_v[k - 1] == p);
                }
            }
            if old_v.contains(p) {
                let k = choose|k: int| 0 <= k < old_v.len() && old_v[k] == p;
                if k < pos {
                    assert(new_v[k] == p);
                } else {
                    assert(new_v[k + 1] == p);
                }
            }
            if p == e_v {
                assert(new_v[pos as int] == p);
            }
        }
    }
}

/// The paths of both lists, each once, in ascending order.
fn sorted_union(prev_chars: &Vec<Vec<char>>, obs_chars: &Vec<Vec<char>>) -> (r: Vec<Vec<char>>)
    requires
        forall|a: int, b: int| 0 <= a < b < prev_chars.len() ==> prev_chars@[a]@ != prev_chars@[b]@,
    ensures
        strictly_sorted(char_views(r@)),
        forall|p: Seq<char>| char_views(r@).contains(p) <==> (char_views(prev_chars@).contains(p) || char_views(obs_chars@).contains(p)),
{
    let mut r: Vec<Vec<char>> = Vec::new();
    let mut i: usize = 0;
    while i < prev_chars.len()
        invariant
            i <= prev_chars.len(),
            forall|a: int, b: int| 0 <= a < b < prev_chars.len() ==> prev_chars@[a]@ != prev_chars@[b]@,
            strictly_sorted(char_views(r@)),
            forall|p: Seq<char>| char_views(r@).contains(p) <==> char_views(prev_chars@).take(i as int).contains(p),
        decreases prev_chars.len() - i,
    {
        let c = copy_chars(&prev_chars[i]);
        proof {
            if char_views(r@).contains(c@) {
                let k = choose|k: int| 0 <= k < i && char_views(prev_chars@).take(i as int)[k] == c@;
                assert(prev_chars@[k]@ == prev_chars@[i as int]@);
            }
        }
        let ghost cv = c@;
        insert_sorted(&mut r, c);
        proof {
            let t0 = char_views(prev_chars@).take(i as int);
            let t = char_views(prev_chars@).take(i + 1);
            assert(t =~= t0.push(cv));
            assert forall|p: Seq<char>| char_views(r@).contains(p) <==> t.contains(p) by {
                lemma_push_contains(t0, cv, p);
            }
        }
        i = i + 1;
    }
    assert(char_views(prev_chars@).take(prev_chars@.len() as int) =~= char_views(prev_chars@));
    let mut j: usize = 0;
    while j < obs_chars.len()
        invariant
            j <= obs_chars.len(),
            strictly_sorted(char_views(r@)),
            forall|p: Seq<char>| char_views(r@).contains(p) <==> (char_views(prev_chars@).contains(p)
                || char_views(obs_chars@).take(j as int).contains(p)),
        decreases obs_chars.len() - j,
    {
        let c = copy_chars(&obs_chars[j]);
        let ghost cv = c@;
        let known = find_chars(&r, &c);
        if known.is_none() {
            proof {
                if char_views(r@).contains(cv) {
                    let k = choose|k: int| 0 <= k < r.len() && char_views(r@)[k] == cv;
                    assert(r@[k]@ == cv);
                }
            }
            insert_sorted(&mut r, c);
        }
        proof {
            let t0 = char_views(obs_chars@).take(j as int);
            let t = char_views(obs_chars@).take(j + 1);
            assert(t =~= t0.push(cv));
            assert forall|p: Seq<char>| char_views(r@).contains(p) <==> (char_views(prev_chars@).contains(p)
                || t.contains(p)) by {
                lemma_push_contains(t0, cv, p);
                if known.is_some() {
                    let k = known.unwrap();
                    assert(char_views(r@)[k as int] == cv);
                }
            }
        }
        j = j + 1;
    }
    assert(char_views(obs_chars@).take(obs_chars@.len() as int) =~= char_views(obs_chars@));
    r
}


pub open spec fn changes_view(s: Seq<Change>) -> Seq<ChangeView> {
    s.map_values(|c: Change| c@)
}

pub open spec fn unique_paths_prev(prev: Seq<LocationView>) -> bool {
    forall|a: int, b: int| 0 <= a < b < prev.len() ==> prev[a].path != prev[b].path
}

pub open spec fn unique_paths_obs(obs: Seq<ObservationView>) -> bool {
    forall|a: int, b: int| 0 <= a < b < obs.len() ==> obs[a].path != obs[b].path
}

proof fn lemma_prev_at(prev: Seq<LocationView>, i: int)
    requires
        unique_paths_prev(prev),
        0 <= i < prev.len(),
    ensures
        prev_has(prev, prev[i].path),
        prev_at(prev, prev[i].path) == prev[i],
{
    let p = prev[i].path;
    assert(prev[i].path == p);
    let k = choose|k: int| 0 <= k < prev.len() && #[trigger] prev[k].path == p;
    if k < i {
        assert(prev[k].path != prev[i].path);
    } else if k > i {
        assert(prev[i].path != prev[k].path);
    }
}

proof fn lemma_obs_at(obs: Seq<ObservationView>, j: int)
    requires
        unique_paths_obs(obs),
        0 <= j < obs.len(),
    ensures
        obs_has(obs, obs[j].path),
        obs_at(obs, obs[j].path) == obs[j],
{
    let p = obs[j].path;
    assert(obs[j].path == p);
    let k = choose|k: int| 0 <= k < obs.len() && #[trigger] obs[k].path == p;
    if k < j {
        assert(obs[k].path != obs[j].path);
    } else if k > j {
        assert(obs[j].path != obs[k].path);
    }
}

/// The changes recorded for one path, given where it occurs.
fn changes_of_path(
    previous: &[Location],
    observed: &[Observation],
    before: Option<usize>,
    after: Option<usize>,
) -> (r: Vec<Change>)
    requires
        before is Some ==> before->0 < previous.len(),
        after is Some ==> after->0 < observed.len(),
        before is Some || after is Some,
        unique_paths_prev(locations_view(previous@)),
        unique_paths_obs(observations_view(observed@)),
        before is Some && after is Some ==> previous@[before->0 as int].path@ == observed@[after->0 as int].path@,
        ({
            let p = if after is Some { observed@[after->0 as int].path@ } else { previous@[before->0 as int].path@ };
            &&& (before is None ==> !prev_has(locations_view(previous@), p))
            &&& (after is None ==> !obs_has(observations_view(observed@), p))
        }),
    ensures
        ({
            let p = if after is Some { observed@[after->0 as int].path@ } else { previous@[before->0 as int].path@ };
            changes_view(r@) == path_changes(locations_view(previous@), observations_view(observed@), p)
        }),
{
    let ghost pv = locations_view(previous@);
    let ghost ov = observations_view(observed@);
    let mut r: Vec<Change> = Vec::new();
    match (before, after) {
        (Some(i), Some(j)) => {
            proof {
                lemma_prev_at(pv, i as int);
                lemma_obs_at(ov, j as int);
                assert(pv[i as int].path == ov[j as int].path);
            }
            let b = &previous[i];
            let a = &observed[j];
            if !b.present {
                r.push(Change::Restored(a.path.clone()));
            }
            let replaced = match (b.metadata.identity, a.metadata.identity) {
                (Some(x), Some(y)) => x != y,
                _ => false,
            };
            if replaced {
                r.push(Change::Replaced(a.path.clone()));
            } else if b.metadata != a.metadata {
                r.push(Change::Modified(a.path.clone()));
            }
            proof {
                let p = ov[j as int].path;
                assert(changes_view(r@) =~= path_changes(pv, ov, p));
            }
        }
        (None, Some(j)) => {
            proof { lemma_obs_at(ov, j as int); }
            r.push(Change::Added(observed[j].path.clone()));
            proof {
                assert(changes_view(r@) =~= path_changes(pv, ov, ov[j as int].path));
            }
        }
        (Some(i), None) => {
            proof { lemma_prev_at(pv, i as int); }
            if previous[i].present {
                r.push(Change::Missing(previous[i].path.clone()));
            }
            proof {
                assert(changes_view(r@) =~= path_changes(pv, ov, pv[i as int].path));
            }
        }
        (None, None) => {}
    }
    r
}

/// One location and the per-path changes for every path of `union`, in order.
fn locations_and_changes(
    previous: &[Location],
    observed: &[Observation],
    prev_chars: &Vec<Vec<char>>,
    obs_chars: &Vec<Vec<char>>,
    union: &Vec<Vec<char>>,
) -> (r: (Vec<Location>, Vec<Change>))
    requires
        char_views(prev_chars@) == locations_view(previous@).map_values(|l: LocationView| l.path),
        char_views(obs_chars@) == observations_view(observed@).map_values(|o: ObservationView| o.path),
        unique_paths_prev(locations_view(previous@)),
        unique_paths_obs(observations_view(observed@)),
        forall|p: Seq<char>| char_views(union@).contains(p) ==> (char_views(prev_chars@).contains(p) || char_views(obs_chars@).contains(p)),
    ensures
        r.0@.len() == union@.len(),
        forall|k: int| 0 <= k < union@.len() ==> #[trigger] r.0@[k]@ == expected_location(
            locations_view(previous@), observations_view(observed@), union@[k]@),
        changes_view(r.1@) == changes_for_paths(locations_view(previous@), observations_view(observed@), char_views(union@)),
{
    let ghost pv = locations_view(previous@);
    let ghost ov = observations_view(observed@);
    let ghost uv = char_views(union@);
    let mut locations: Vec<Location> = Vec::new();
    let mut changes: Vec<Change> = Vec::new();
    let mut u: usize = 0;
    while u < union.len()
        invariant
            pv == locations_view(previous@),
            ov == observations_view(observed@),
            uv == char_views(union@),
            char_views(prev_chars@) == pv.map_values(|l: LocationView| l.path),
            char_views(obs_chars@) == ov.map_values(|o: ObservationView| o.path),
            unique_paths_prev(pv),
            unique_paths_obs(ov),
            forall|p: Seq<char>| uv.contains(p) ==> (char_views(prev_chars@).contains(p) || char_views(obs_chars@).contains(p)),
            u <= union.len(),
            locations@.len() == u,
            forall|k: int| 0 <= k < u ==> #[trigger] locations@[k]@ == expected_location(pv, ov, union@[k]@),
            changes_view(changes@) == changes_for_paths(pv, ov, uv.take(u as int)),
        decreases union.len() - u,
    {
        let p = &union[u];
        let ghost pp = p@;
        assert(uv[u as int] == pp);
        let before = find_chars(prev_chars, p);
        let after = find_chars(obs_chars, p);
        proof {
            assert(uv.contains(pp));
            assert(char_views(obs_chars@).len() == ov.len());
            assert(char_views(prev_chars@).len() == pv.len());
            if before is None {
                if prev_has(pv, pp) {
                    let i = choose|i: int| 0 <= i < pv.len() && #[trigger] pv[i].path == pp;
                    assert(char_views(prev_chars@)[i] == pp);
                }
            }
            if after is None {
                if obs_has(ov, pp) {
                    let j = choose|j: int| 0 <= j < ov.len() && #[trigger] ov[j].path == pp;
                    assert(char_views(obs_chars@)[j] == pp);
                }
            }
            if before is None && after is None {
                if char_views(prev_chars@).contains(pp) {
                    let i = choose|i: int| 0 <= i < prev_chars.len() && char_views(prev_chars@)[i] == pp;
                    assert(prev_chars@[i]@ == pp);
                } else {
                    let j = choose|j: int| 0 <= j < obs_chars.len() && char_views(obs_chars@)[j] == pp;
                    assert(obs_chars@[j]@ == pp);
                }
            }
            if before is Some {
                assert(pv[before->0 as int].path == char_views(prev_chars@)[before->0 as int]);
            }
            if after is Some {
                assert(ov[after->0 as int].path == char_views(obs_chars@)[after->0 as int]);
            }
        }
        let location = match after {
            Some(j) => {
                proof { lemma_obs_at(ov, j as int); }
                Location { path: observed[j].path.clone(), metadata: observed[j].metadata, present: true }
            }
            None => {
                let i = before.unwrap();
                proof { lemma_prev_at(pv, i as int); }
                Location { path: previous[i].path.clone(), metadata: previous[i].metadata, present: false }
            }
        };
        let mut here = changes_of_path(previous, observed, before, after);
        proof {
            assert(location@ == expected_location(pv, ov, pp));
        }
        locations.push(location);
        let ghost old_changes = changes_view(changes@);
        let ghost here_v = changes_view(here@);
        changes.append(&mut here);
        proof {
            assert(changes_view(changes@) =~= old_changes + here_v);
            assert(uv.take(u + 1).drop_last() =~= uv.take(u as int));
            assert(uv.take(u + 1).last() == pp);
        }
        u = u + 1;
    }
    assert(uv.take(union@.len() as int) =~= uv);
    (locations, changes)
}


pub open spec fn identities_sorted(ids: Seq<Identity>) -> bool {
    forall|a: int, b: int| 0 <= a < b < ids.len() ==> identity_lt(#[trigger] ids[a], #[trigger] ids[b])
}

fn identity_less(a: Identity, b: Identity) -> (r: bool)
    ensures
        r == identity_lt(a, b),
{
    a.volume < b.volume || (a.volume == b.volume && a.file < b.file)
}

/// Inserts a new identity into the strictly ascending `ids`.
fn insert_identity(ids: &mut Vec<Identity>, id: Identity)
    requires
        identities_sorted(old(ids)@),
        !old(ids)@.contains(id),
    ensures
        identities_sorted(final(ids)@),
        forall|x: Identity| final(ids)@.contains(x) <==> (old(ids)@.contains(x) || x == id),
{
    let ghost old_v = ids@;
    let mut pos: usize = 0;
    while pos < ids.len()
        invariant
            old_v == ids@,
            identities_sorted(old_v),
            !old_v.contains(id),
            pos <= ids.len(),
            forall|k: int| 0 <= k < pos ==> identity_lt(#[trigger] old_v[k], id),
        ensures
            pos <= ids.len(),
            forall|k: int| 0 <= k < pos ==> identity_lt(#[trigger] old_v[k], id),
            pos < ids.len() ==> identity_lt(id, old_v[pos as int]),
        decreases ids.len() - pos,
    {
        if identity_less(id, ids[pos]) {
            break;
        }
        proof {
            if old_v[pos as int] == id {
                assert(old_v.contains(id));
            }
        }
        pos = pos + 1;
    }
    ids.insert(pos, id);
    proof {
        let new_v = ids@;
        assert forall|a: int, b: int| 0 <= a < b < new_v.len() implies identity_lt(#[trigger] new_v[a], #[trigger] new_v[b]) by {
            if a < pos && b < pos {
                assert(identity_lt(old_v[a], old_v[b]));
            } else if a < pos && b > pos {
                assert(identity_lt(old_v[a], old_v[b - 1]));
            } else if a == pos && b > pos {
                assert(identity_lt(old_v[pos as int], old_v[b - 1]) || pos == b - 1);
            } else if a > pos {
                assert(identity_lt(old_v[a - 1], old_v[b - 1]));
            }
        }
        assert forall|x: Identity| new_v.contains(x) <==> (old_v.contains(x) || x == id) by {
            if new_v.contains(x) {
                let k = choose|k: int| 0 <= k < new_v.len() && new_v[k] == x;
                if k < pos {
                    assert(old_v[k] == x);
                } else if k > pos {
                    assert(old_v[k - 1] == x);
                }
            }
            if old_v.contains(x) {
                let k = choose|k: int| 0 <= k < old_v.len() && old_v[k] == x;
                if k < pos {
                    assert(new_v[k] == x);
                } else {
                    assert(new_v[k + 1] == x);
                }
            }
            if x == id {
                assert(new_v[pos as int] == x);
            }
        }
    }
}

fn contains_identity(ids: &Vec<Identity>, id: Identity) -> (r: bool)
    ensures
        r == ids@.contains(id),
{
    let mut k: usize = 0;
    while k < ids.len()
        invariant
            k <= ids.len(),
            forall|a: int| 0 <= a < k ==> ids@[a] != id,
        decreases ids.len() - k,
    {
        if ids[k] == id {
            return true;
        }
        k = k + 1;
    }
    false
}

/// The identities of the present previous locations, ascending, each once.
fn live_identities(previous: &[Location]) -> (r: Vec<Identity>)
    ensures
        identities_sorted(r@),
        forall|id: Identity| r@.contains(id) <==> (exists|i: int| #[trigger] live_alias(locations_view(previous@), id, i)),
{
    let ghost pv = locations_view(previous@);
    let mut ids: Vec<Identity> = Vec::new();
    let mut i: usize = 0;
    while i < previous.len()
        invariant
            pv == locations_view(previous@),
            i <= previous.len(),
            identities_sorted(ids@),
            forall|id: Identity| ids@.contains(id) <==> (exists|a: int| 0 <= a < i && #[trigger] live_alias(pv, id, a)),
        decreases previous.len() - i,
    {
        if previous[i].present {
            if let Some(id) = previous[i].metadata.identity {
                if !contains_identity(&ids, id) {
                    insert_identity(&mut ids, id);
                }
                proof {
                    assert(live_alias(pv, id, i as int));
                }
            }
        }
        proof {
            assert forall|x: Identity| ids@.contains(x) <==> (exists|a: int| 0 <= a < i + 1 && #[trigger] live_alias(pv, x, a)) by {
                if exists|a: int| 0 <= a < i + 1 && #[trigger] live_alias(pv, x, a) {
                    let a = choose|a: int| 0 <= a < i + 1 && #[trigger] live_alias(pv, x, a);
                    if a < i {
                        assert(exists|b: int| 0 <= b < i && #[trigger] live_alias(pv, x, b));
                    }
                }
            }
        }
        i = i + 1;
    }
    ids
}

/// The only present previous alias of `id`, if exactly one exists.
fn unique_live_alias(previous: &[Location], id: Identity) -> (r: Option<usize>)
    ensures
        match r {
            Some(i) => live_alias(locations_view(previous@), id, i as int)
                && forall|k: int| #[trigger] live_alias(locations_view(previous@), id, k) ==> k == i,
            None => forall|i: int| #[trigger] live_alias(locations_view(previous@), id, i) ==>
                exists|k: int| live_alias(locations_view(previous@), id, k) && k != i,
        },
{
    let ghost pv = locations_view(previous@);
    let mut found: Option<usize> = None;
    let mut i: usize = 0;
    while i < previous.len()
        invariant
            pv == locations_view(previous@),
            i <= previous.len(),
            match found {
                Some(f) => f < i && live_alias(pv, id, f as int)
                    && forall|k: int| 0 <= k < i && #[trigger] live_alias(pv, id, k) ==> k == f,
                None => forall|k: int| 0 <= k < i ==> !#[trigger] live_alias(pv, id, k),
            },
        decreases previous.len() - i,
    {
        if previous[i].present && previous[i].metadata.identity == Some(id) {
            assert(live_alias(pv, id, i as int));
            match found {
                Some(f) => {
                    proof {
                        assert forall|x: int| #[trigger] live_alias(pv, id, x) implies
                            exists|k: int| live_alias(pv, id, k) && k != x by {
                            if x == f as int {
                                assert(live_alias(pv, id, i as int));
                            } else {
                                assert(live_alias(pv, id, f as int));
                            }
                        }
                    }
                    return None;
                }
                None => {
                    found = Some(i);
                }
            }
        }
        i = i + 1;
    }
    found
}

/// The only observed alias of `id`, if exactly one exists.
fn unique_observed_alias(observed: &[Observation], id: Identity) -> (r: Option<usize>)
    ensures
        match r {
            Some(j) => observed_alias(observations_view(observed@), id, j as int)
                && forall|k: int| #[trigger] observed_alias(observations_view(observed@), id, k) ==> k == j,
            None => forall|j: int| #[trigger] observed_alias(observations_view(observed@), id, j) ==>
                exists|k: int| observed_alias(observations_view(observed@), id, k) && k != j,
        },
{
    let ghost ov = observations_view(observed@);
    let mut found: Option<usize> = None;
    let mut i: usize = 0;
    while i < observed.len()
        invariant
            ov == observations_view(observed@),
            i <= observed.len(),
            match found {
                Some(f) => f < i && observed_alias(ov, id, f as int)
                    && forall|k: int| 0 <= k < i && #[trigger] observed_alias(ov, id, k) ==> k == f,
                None => forall|k: int| 0 <= k < i ==> !#[trigger] observed_alias(ov, id, k),
            },
        decreases observed.len() - i,
    {
        if observed[i].metadata.identity == Some(id) {
            assert(observed_alias(ov, id, i as int));
            match found {
                Some(f) => {
                    proof {
                        assert forall|x: int| #[trigger] observed_alias(ov, id, x) implies
                            exists|k: int| observed_alias(ov, id, k) && k != x by {
                            if x == f as int {
                                assert(observed_alias(ov, id, i as int));
                            } else {
                                assert(observed_alias(ov, id, f as int));
                            }
                        }
                    }
                    return None;
                }
                None => {
                    found = Some(i);
                }
            }
        }
        i = i + 1;
    }
    found
}

/// The rename evidence of every qualifying identity, ascending by identity.
fn rename_changes(
    previous: &[Location],
    observed: &[Observation],
    prev_chars: &Vec<Vec<char>>,
    obs_chars: &Vec<Vec<char>>,
) -> (r: Vec<Change>)
    requires
        char_views(prev_chars@) == locations_view(previous@).map_values(|l: LocationView| l.path),
        char_views(obs_chars@) == observations_view(observed@).map_values(|o: ObservationView| o.path),
    ensures
        exists|ids: Seq<Identity>| renames_for(locations_view(previous@), observations_view(observed@), ids, changes_view(r@)),
{
    let ghost pv = locations_view(previous@);
    let ghost ov = observations_view(observed@);
    assert(char_views(obs_chars@).len() == ov.len());
    assert(char_views(prev_chars@).len() == pv.len());
    let ids = live_identities(previous);
    let mut r: Vec<Change> = Vec::new();
    let ghost mut rid: Seq<Identity> = Seq::empty();
    let mut k: usize = 0;
    while k < ids.len()
        invariant
            pv == locations_view(previous@),
            ov == observations_view(observed@),
            char_views(prev_chars@) == pv.map_values(|l: LocationView| l.path),
            char_views(obs_chars@) == ov.map_values(|o: ObservationView| o.path),
            prev_chars.len() == pv.len(),
            obs_chars.len() == ov.len(),
            identities_sorted(ids@),
            forall|id: Identity| ids@.contains(id) <==> (exists|i: int| #[trigger] live_alias(pv, id, i)),
            k <= ids.len(),
            r@.len() == rid.len(),
            identities_sorted(rid),
            forall|m: int, t: int| 0 <= m < rid.len() && k <= t < ids.len() ==> identity_lt(#[trigger] rid[m], #[trigger] ids@[t]),
            forall|id: Identity| rid.contains(id) <==> (ids@.take(k as int).contains(id) && rename_qualifies(pv, ov, id)),
            forall|m: int| 0 <= m < rid.len() ==> #[trigger] rename_entry(pv, ov, rid[m], changes_view(r@)[m]),
        decreases ids.len() - k,
    {
        let id = ids[k];
        let ghost rid_before = rid;
        let from = unique_live_alias(previous, id);
        let to = unique_observed_alias(observed, id);
        let mut qualifies = false;
        if let (Some(i), Some(j)) = (from, to) {
            assert(pv[i as int].path == char_views(prev_chars@)[i as int]);
            assert(ov[j as int].path == char_views(obs_chars@)[j as int]);
            let distinct = !chars_eq(&prev_chars[i], &obs_chars[j]);
            let from_gone = find_chars(obs_chars, &prev_chars[i]).is_none();
            let to_new = find_chars(prev_chars, &obs_chars[j]).is_none();
            proof {
                if from_gone && obs_has(ov, pv[i as int].path) {
                    let x = choose|x: int| 0 <= x < ov.len() && #[trigger] ov[x].path == pv[i as int].path;
                    assert(char_views(obs_chars@)[x] == ov[x].path);
                }
                if !from_gone {
                    let x = choose|x: int| 0 <= x < obs_chars.len() && obs_chars@[x]@ == prev_chars@[i as int]@;
                    assert(char_views(obs_chars@)[x] == ov[x].path);
                    assert(ov[x].path == pv[i as int].path);
                }
                if to_new && prev_has(pv, ov[j as int].path) {
                    let x = choose|x: int| 0 <= x < pv.len() && #[trigger] pv[x].path == ov[j as int].path;
                    assert(char_views(prev_chars@)[x] == pv[x].path);
                }
                if !to_new {
                    let x = choose|x: int| 0 <= x < prev_chars.len() && prev_chars@[x]@ == obs_chars@[j as int]@;
                    assert(char_views(prev_chars@)[x] == pv[x].path);
                    assert(pv[x].path == ov[j as int].path);
                }
            }
            proof {
                if rename_qualifies(pv, ov, id) {
                    let (a, b) = choose|a: int, b: int| rename_witness(pv, ov, id, a, b);
                    assert(live_alias(pv, id, a));
                    assert(observed_alias(ov, id, b));
                    assert(a == i as int);
                    assert(b == j as int);
                    if !distinct {
                        assert(pv[i as int].path == ov[j as int].path);
                    }
                }
                if distinct && from_gone && to_new {
                    assert(rename_witness(pv, ov, id, i as int, j as int));
                }
            }
            if distinct && from_gone && to_new {
                qualifies = true;
                let ghost old_r = changes_view(r@);
                r.push(Change::RenameEvidence { from: previous[i].path.clone(), to: observed[j].path.clone() });
                proof {
                    assert(rename_witness(pv, ov, id, i as int, j as int));
                    assert(rename_qualifies(pv, ov, id));
                    assert(changes_view(r@) =~= old_r.push(ChangeView::RenameEvidence { from: pv[i as int].path, to: ov[j as int].path }));
                    let old_rid = rid;
                    rid = rid.push(id);
                    assert forall|m: int| 0 <= m < rid.len() implies #[trigger] rename_entry(pv, ov, rid[m], changes_view(r@)[m]) by {
                        if m < old_rid.len() {
                            assert(rid[m] == old_rid[m]);
                            assert(changes_view(r@)[m] == old_r[m]);
                            assert(rename_entry(pv, ov, old_rid[m], old_r[m]));
                        } else {
                            assert(rename_witness(pv, ov, rid[m], i as int, j as int));
                        }
                    }
                }
            }
        }
        proof {
            if (from is None || to is None) && rename_qualifies(pv, ov, id) {
                let (a, b) = choose|a: int, b: int| rename_witness(pv, ov, id, a, b);
                assert(live_alias(pv, id, a));
                assert(observed_alias(ov, id, b));
            }
            assert(qualifies == rename_qualifies(pv, ov, id));
            let t0 = ids@.take(k as int);
            let t1 = ids@.take(k + 1);
            assert(t1 =~= t0.push(id));
            assert forall|x: Identity| rid.contains(x) <==> (t1.contains(x) && rename_qualifies(pv, ov, x)) by {
                lemma_push_contains(t0, id, x);
                if !qualifies && rid.contains(x) && x == id {
                    let m = choose|m: int| 0 <= m < rid.len() && rid[m] == x;
                    assert(identity_lt(rid[m], ids@[k as int]));
                }
                if qualifies {
                    lemma_push_contains(rid_before, id, x);
                } else {
                    assert(rid == rid_before);
                }
            }
            assert forall|a: int, b: int| 0 <= a < b < rid.len() implies identity_lt(#[trigger] rid[a], #[trigger] rid[b]) by {
                if qualifies && b == rid.len() - 1 {
                    assert(identity_lt(rid[a], ids@[k as int]));
                }
            }
            assert forall|m: int, t: int| 0 <= m < rid.len() && k + 1 <= t < ids.len() implies identity_lt(#[trigger] rid[m], #[trigger] ids@[t]) by {
                if qualifies && m == rid.len() - 1 {
                    assert(identity_lt(ids@[k as int], ids@[t]));
                } else {
                    assert(identity_lt(rid[m], ids@[t]));
                }
            }
        }
        k = k + 1;
    }
    proof {
        assert(ids@.take(ids@.len() as int) =~= ids@);
        assert forall|id: Identity| rename_qualifies(pv, ov, id) <==> rid.contains(id) by {
            if rename_qualifies(pv, ov, id) {
                let (a, b) = choose|a: int, b: int| rename_witness(pv, ov, id, a, b);
                assert(live_alias(pv, id, a));
            }
        }
        let rv = changes_view(r@);
        assert(rv.len() == rid.len());
        assert(renames_for(pv, ov, rid, rv));
    }
    r
}


/// Produces an all-or-nothing proposal. No file bytes are read or modified.
/// Callers must not publish this proposal without the durable apply contract.
///
/// A non-`Complete` outcome is rejected before any input is examined, so an
/// incomplete traversal never yields additions, modifications or absences.
/// Otherwise the inputs are validated in order (previous locations, then
/// observations) and the first invalid path, exceeded bound or duplicate path
/// rejects the whole run. An accepted run yields one location per known path,
/// ascending by path: observed paths carry their observed metadata and are
/// present; unobserved previous paths are retained as not present.
pub fn reconcile(previous: &[Location], observed: &[Observation], outcome: Outcome) -> (r: Result<Plan, Rejected>)
    ensures
        match r {
            Err(e) => rejection(locations_view(previous@), observations_view(observed@), outcome) == Some(e),
            Ok(plan) => rejection(locations_view(previous@), observations_view(observed@), outcome) is None
                && plan_matches(locations_view(previous@), observations_view(observed@), plan@),
        },
{
    let ghost pv = locations_view(previous@);
    let ghost ov = observations_view(observed@);
    if outcome != Outcome::Complete {
        return Err(Rejected::Incomplete(outcome));
    }
    if previous.len() > MAX_RECORDS || observed.len() > MAX_RECORDS - previous.len() {
        return Err(Rejected::ResourceLimit);
    }
    let (prev_chars, obs_chars) = match validate_inputs(previous, observed) {
        Err(e) => {
            return Err(e);
        }
        Ok(x) => x,
    };
    proof {
        assert(char_views(prev_chars@).len() == pv.len());
        assert(char_views(obs_chars@).len() == ov.len());
        assert forall|a: int, b: int| 0 <= a < b < pv.len() implies pv[a].path != pv[b].path by {
            assert(char_views(prev_chars@)[a] == pv[a].path);
            assert(char_views(prev_chars@)[b] == pv[b].path);
        }
        assert forall|a: int, b: int| 0 <= a < b < ov.len() implies ov[a].path != ov[b].path by {
            assert(char_views(obs_chars@)[a] == ov[a].path);
            assert(char_views(obs_chars@)[b] == ov[b].path);
        }
    }
    let union = sorted_union(&prev_chars, &obs_chars);
    let (locations, mut changes) = locations_and_changes(previous, observed, &prev_chars, &obs_chars, &union);
    let mut renames = rename_changes(previous, observed, &prev_chars, &obs_chars);
    let ghost per_path = changes_view(changes@);
    let ghost rename_v = changes_view(renames@);
    changes.append(&mut renames);
    let plan = Plan { locations, changes };
    proof {
        let uv = char_views(union@);
        let paths = plan@.locations.map_values(|l: LocationView| l.path);
        assert(paths =~= uv);
        assert forall|p: Seq<char>| paths.contains(p) <==> (prev_has(pv, p) || obs_has(ov, p)) by {
            let pm = pv.map_values(|l: LocationView| l.path);
            let om = ov.map_values(|o: ObservationView| o.path);
            if prev_has(pv, p) {
                let i = choose|i: int| 0 <= i < pv.len() && #[trigger] pv[i].path == p;
                assert(pm[i] == p);
            }
            if obs_has(ov, p) {
                let j = choose|j: int| 0 <= j < ov.len() && #[trigger] ov[j].path == p;
                assert(om[j] == p);
            }
            if pm.contains(p) {
                let i = choose|i: int| 0 <= i < pm.len() && pm[i] == p;
                assert(pv[i].path == p);
            }
            if om.contains(p) {
                let j = choose|j: int| 0 <= j < om.len() && om[j] == p;
                assert(ov[j].path == p);
            }
        }
        assert forall|k: int| 0 <= k < plan@.locations.len() implies #[trigger] plan@.locations[k] == expected_location(pv, ov, paths[k]) by {
            assert(plan@.locations[k] == plan.locations@[k]@);
        }
        assert(plan@.changes =~= per_path + rename_v);
        let n = changes_for_paths(pv, ov, paths).len() as int;
        assert(plan@.changes.take(n) =~= per_path);
        assert(plan@.changes.skip(n) =~= rename_v);
        let ids = choose|ids: Seq<Identity>| renames_for(pv, ov, ids, rename_v);
        assert(renames_for(pv, ov, ids, plan@.changes.skip(n)));
    }
    Ok(plan)
}

} // verus!
