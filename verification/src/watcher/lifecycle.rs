//! The decisions of one handle-bound watch: configuration checks and
//! normalization, the classification of terminal OS failures and of failed
//! starts, what a failed read completion means, and the per-poll pump that
//! turns drained activity, coverage loss and the end of the watch into
//! coalesced hints. The OS calls, the worker thread and the queue live with
//! the caller; these functions take their results as plain values.
use vstd::prelude::*;

use super::coalescer::{
    after_activity, after_coverage_lost, after_poll, bounded, generation_fresh, poll_hints_match, Coalescer,
    CoalescerConfig, CoalescerView,
};
use super::{EndReason, RootId, StartError, WatchHint, WatchOutcome};

verus! {

/// Win32 error codes (`winerror.h`) that the watch classifies.
pub const ERROR_FILE_NOT_FOUND: u32 = 2;
pub const ERROR_PATH_NOT_FOUND: u32 = 3;
pub const ERROR_ACCESS_DENIED: u32 = 5;
pub const ERROR_INVALID_HANDLE: u32 = 6;
pub const ERROR_NOT_READY: u32 = 21;
pub const ERROR_SHARING_VIOLATION: u32 = 32;
pub const ERROR_BAD_NETPATH: u32 = 53;
pub const ERROR_NETNAME_DELETED: u32 = 64;
pub const ERROR_BAD_NET_NAME: u32 = 67;
pub const ERROR_MORE_DATA: u32 = 234;
pub const ERROR_DIRECTORY: u32 = 267;
pub const ERROR_DELETE_PENDING: u32 = 303;
pub const ERROR_OPERATION_ABORTED: u32 = 995;
pub const ERROR_IO_INCOMPLETE: u32 = 996;
pub const ERROR_NOTIFY_ENUM_DIR: u32 = 1022;

/// The watcher tracks exactly one root; the coalescer budget stays small.
pub const COALESCER_ROOT_BOUND: usize = 8;

pub const MIN_NOTIFY_BUFFER_BYTES: usize = 4096;
pub const MAX_NOTIFY_BUFFER_BYTES: usize = 1024 * 1024;
pub const MIN_VALIDITY_POLL_MS: u32 = 50;
pub const MAX_VALIDITY_POLL_MS: u32 = 10_000;

/// The OS codes that mean the configured root is gone or unreachable.
pub open spec fn is_root_lost_code(code: u32) -> bool {
    ||| code == ERROR_ACCESS_DENIED
    ||| code == ERROR_DELETE_PENDING
    ||| code == ERROR_NOT_READY
    ||| code == ERROR_BAD_NETPATH
    ||| code == ERROR_BAD_NET_NAME
    ||| code == ERROR_NETNAME_DELETED
    ||| code == ERROR_FILE_NOT_FOUND
    ||| code == ERROR_PATH_NOT_FOUND
    ||| code == ERROR_INVALID_HANDLE
    ||| code == ERROR_DIRECTORY
}

/// Classifies a terminal watch failure. Renamed, deleted or unreachable roots
/// are `RootLost`; anything else is an opaque OS status code. A sharing
/// violation signals a handle-open conflict, not a lost root, and stays
/// `WatchFailed`. Both are observations about the watch, never about files.
pub fn terminal_reason(os_code: u32) -> (r: EndReason)
    ensures
        r == (if is_root_lost_code(os_code) { EndReason::RootLost } else { EndReason::WatchFailed { os_code } }),
{
    match os_code {
        ERROR_ACCESS_DENIED | ERROR_DELETE_PENDING | ERROR_NOT_READY | ERROR_BAD_NETPATH | ERROR_BAD_NET_NAME
        | ERROR_NETNAME_DELETED | ERROR_FILE_NOT_FOUND | ERROR_PATH_NOT_FOUND | ERROR_INVALID_HANDLE
        | ERROR_DIRECTORY => EndReason::RootLost,
        os_code => EndReason::WatchFailed { os_code },
    }
}

/// Win32 file attribute values (`winnt.h`) that a watch start checks.
pub const INVALID_FILE_ATTRIBUTES: u32 = 0xFFFF_FFFF;
pub const FILE_ATTRIBUTE_DIRECTORY: u32 = 0x0010;
pub const FILE_ATTRIBUTE_REPARSE_POINT: u32 = 0x0400;

/// The start error for a root with these attributes, or `None` when the
/// root can be watched.
pub open spec fn root_attributes_error(attributes: u32, last_error: u32) -> Option<StartError> {
    if attributes == INVALID_FILE_ATTRIBUTES {
        Some(StartError::RootUnavailable { os_code: last_error })
    } else if attributes & FILE_ATTRIBUTE_REPARSE_POINT != 0 {
        Some(StartError::ReparseRootExcluded)
    } else if attributes & FILE_ATTRIBUTE_DIRECTORY == 0 {
        Some(StartError::NotADirectory)
    } else {
        None
    }
}

/// The policy check on the root's attributes before a watch is opened: a
/// failed lookup (`INVALID_FILE_ATTRIBUTES`) leaves the root unavailable
/// with the lookup's OS code, a reparse point is a policy exclusion,
/// distinct from I/O, and anything else that is not a directory cannot be
/// watched.
pub fn classify_root_attributes(attributes: u32, last_error: u32) -> (r: Result<(), StartError>)
    ensures
        match r {
            Ok(()) => root_attributes_error(attributes, last_error) is None,
            Err(e) => root_attributes_error(attributes, last_error) == Some(e),
        },
{
    if attributes == INVALID_FILE_ATTRIBUTES {
        return Err(StartError::RootUnavailable { os_code: last_error });
    }
    if attributes & FILE_ATTRIBUTE_REPARSE_POINT != 0 {
        return Err(StartError::ReparseRootExcluded);
    }
    if attributes & FILE_ATTRIBUTE_DIRECTORY == 0 {
        return Err(StartError::NotADirectory);
    }
    Ok(())
}

/// How long a start waits for the worker to arm the watch, in milliseconds.
pub const ARM_TIMEOUT_MS: u64 = 5_000;

/// Where a start stands while it waits for the worker to arm the watch.
#[derive(Clone, Copy, Debug, PartialEq, Eq, Structural)]
pub enum ArmWait {
    /// The watch is armed: every later change is observed.
    Armed,
    /// The worker exited first, or the wait timed out: the start fails with
    /// the worker's classified outcome instead of a half-live watch.
    NotArmed,
    /// Keep waiting.
    Wait,
}

/// The decision of one look at the worker, `waited_ms` into the wait: past
/// the timeout the start gives up; otherwise an armed watch is taken, and a
/// worker that already reported an outcome ends the wait unarmed.
pub fn arm_wait(armed: bool, worker_done: bool, waited_ms: u64) -> (r: ArmWait)
    ensures
        r == (if waited_ms >= ARM_TIMEOUT_MS {
            ArmWait::NotArmed
        } else if armed {
            ArmWait::Armed
        } else if worker_done {
            ArmWait::NotArmed
        } else {
            ArmWait::Wait
        }),
{
    if waited_ms >= ARM_TIMEOUT_MS {
        ArmWait::NotArmed
    } else if armed {
        ArmWait::Armed
    } else if worker_done {
        ArmWait::NotArmed
    } else {
        ArmWait::Wait
    }
}

/// Maps a pre-arm worker exit to the typed start error without losing the
/// root-loss classification: `RootLost` becomes `RootUnavailable` with the
/// worker-captured code, `WatchFailed` keeps its code, and a clean stop or no
/// outcome at all is a resource failure.
pub fn classify_start_failure(reason: Option<EndReason>, exit_os_code: u32) -> (r: StartError)
    ensures
        r == match reason {
            Some(EndReason::WatchFailed { os_code }) => StartError::RootUnavailable { os_code },
            Some(EndReason::RootLost) => StartError::RootUnavailable { os_code: exit_os_code },
            _ => StartError::ResourceUnavailable { os_code: 0 },
        },
{
    match reason {
        Some(EndReason::WatchFailed { os_code }) => StartError::RootUnavailable { os_code },
        Some(EndReason::RootLost) => StartError::RootUnavailable { os_code: exit_os_code },
        _ => StartError::ResourceUnavailable { os_code: 0 },
    }
}

/// Why queueing a directory read failed, decided from its OS code: an
/// aborted read is a clean stop; anything else is terminal. The code is kept
/// for start-failure classification only when the root was lost.
pub fn arm_failure(os_code: u32) -> (r: (EndReason, Option<u32>))
    ensures
        os_code == ERROR_OPERATION_ABORTED ==> r == (EndReason::Stopped, None::<u32>),
        os_code != ERROR_OPERATION_ABORTED ==> r.0 == terminal_reason_spec(os_code)
            && r.1 == (if is_root_lost_code(os_code) { Some(os_code) } else { None }),
{
    if os_code == ERROR_OPERATION_ABORTED {
        (EndReason::Stopped, None)
    } else {
        let reason = terminal_reason(os_code);
        match reason {
            EndReason::RootLost => (reason, Some(os_code)),
            _ => (reason, None),
        }
    }
}

pub open spec fn terminal_reason_spec(os_code: u32) -> EndReason {
    if is_root_lost_code(os_code) { EndReason::RootLost } else { EndReason::WatchFailed { os_code } }
}

/// What a failed read completion means for the watch loop.
#[derive(Clone, Copy, Debug, PartialEq, Eq, Structural)]
pub enum CompletionFailure {
    /// The OS lost events: drop the partial batch and demand a full
    /// non-authoritative reconciliation.
    Overflow,
    /// The result is not consumable yet: keep the read armed and wait again.
    StillPending,
    /// The watch ends for this reason; `record_code` keeps the OS code when
    /// the root was lost.
    Ended { reason: EndReason, record_code: Option<u32> },
}

/// Decides a failed read completion from its OS code and whether a stop was
/// requested.
pub fn completion_failure(os_code: u32, stopping: bool) -> (r: CompletionFailure)
    ensures
        r == (if os_code == ERROR_MORE_DATA || os_code == ERROR_NOTIFY_ENUM_DIR {
            CompletionFailure::Overflow
        } else if os_code == ERROR_IO_INCOMPLETE {
            CompletionFailure::StillPending
        } else if os_code == ERROR_OPERATION_ABORTED || stopping {
            CompletionFailure::Ended { reason: EndReason::Stopped, record_code: None }
        } else {
            CompletionFailure::Ended {
                reason: terminal_reason_spec(os_code),
                record_code: if is_root_lost_code(os_code) { Some(os_code) } else { None },
            }
        }),
{
    if os_code == ERROR_MORE_DATA || os_code == ERROR_NOTIFY_ENUM_DIR {
        CompletionFailure::Overflow
    } else if os_code == ERROR_IO_INCOMPLETE {
        CompletionFailure::StillPending
    } else if os_code == ERROR_OPERATION_ABORTED || stopping {
        CompletionFailure::Ended { reason: EndReason::Stopped, record_code: None }
    } else {
        let reason = terminal_reason(os_code);
        match reason {
            EndReason::RootLost => CompletionFailure::Ended { reason, record_code: Some(os_code) },
            _ => CompletionFailure::Ended { reason, record_code: None },
        }
    }
}

/// Configuration for one watch attempt. The generation must be freshly
/// allocated by the caller for every restart, strictly greater than the
/// previous generation for the same root; consumers key hints by
/// `(root, generation)` and discard stale-generation signals.
#[derive(Clone, Copy, Debug, PartialEq, Eq, Structural)]
pub struct WatcherConfig {
    /// Caller-owned monotonic generation.
    pub generation: u64,
    /// Fixed coalescing window in the caller's timestamp units.
    pub window: u64,
    /// Raw event queue capacity before drop-with-counter engages.
    pub raw_queue_bound: usize,
    /// OS notification buffer size in bytes; clamped to [4096, 1 MiB].
    pub notify_buffer_bytes: usize,
    /// Root presence re-check interval in milliseconds; clamped to
    /// [50, 10_000]. A smaller value only bounds detection latency.
    pub validity_poll_ms: u32,
}

impl Default for WatcherConfig {
    fn default() -> (r: Self)
        ensures
            r.generation == 0,
            r.window == 1_000_000_000,
            r.raw_queue_bound == 256,
            r.notify_buffer_bytes == 64 * 1024,
            r.validity_poll_ms == 500,
    {
        WatcherConfig {
            generation: 0,
            window: 1_000_000_000,
            raw_queue_bound: 256,
            notify_buffer_bytes: 64 * 1024,
            validity_poll_ms: 500,
        }
    }
}

pub open spec fn clamp_int(v: int, lo: int, hi: int) -> int {
    if v < lo { lo } else if v > hi { hi } else { v }
}

impl WatcherConfig {
    /// The notification buffer size and the validity poll interval in
    /// milliseconds, each clamped to its allowed range.
    pub fn normalized(&self) -> (r: (usize, u32))
        ensures
            r.0 == clamp_int(self.notify_buffer_bytes as int, MIN_NOTIFY_BUFFER_BYTES as int, MAX_NOTIFY_BUFFER_BYTES as int),
            r.1 == clamp_int(self.validity_poll_ms as int, MIN_VALIDITY_POLL_MS as int, MAX_VALIDITY_POLL_MS as int),
    {
        let bytes = if self.notify_buffer_bytes < MIN_NOTIFY_BUFFER_BYTES {
            MIN_NOTIFY_BUFFER_BYTES
        } else if self.notify_buffer_bytes > MAX_NOTIFY_BUFFER_BYTES {
            MAX_NOTIFY_BUFFER_BYTES
        } else {
            self.notify_buffer_bytes
        };
        let poll = if self.validity_poll_ms < MIN_VALIDITY_POLL_MS {
            MIN_VALIDITY_POLL_MS
        } else if self.validity_poll_ms > MAX_VALIDITY_POLL_MS {
            MAX_VALIDITY_POLL_MS
        } else {
            self.validity_poll_ms
        };
        (bytes, poll)
    }
}

/// Diagnostic counters for one watch. Safe codes and counters only; no paths.
#[derive(Clone, Copy, Debug, PartialEq, Eq, Structural)]
pub struct WatcherStats {
    /// Raw events dropped because the bounded queue was full.
    pub dropped_raw_events: u64,
    /// OS notification-buffer overflows observed (events missed by the OS).
    pub notify_buffer_overflows: u64,
    /// Records surfaced as obscured because their action code or path bytes
    /// could not be validated.
    pub obscured_events: u64,
}

impl Default for WatcherStats {
    fn default() -> (r: Self)
        ensures
            r.dropped_raw_events == 0,
            r.notify_buffer_overflows == 0,
            r.obscured_events == 0,
    {
        WatcherStats { dropped_raw_events: 0, notify_buffer_overflows: 0, obscured_events: 0 }
    }
}

/// Whether a root path, as UTF-16 code units, can be handed to the OS: it is
/// non-empty and holds no NUL.
pub open spec fn root_path_encodable(units: Seq<u16>) -> bool {
    units.len() > 0 && !units.contains(0u16)
}

/// The checks a watch start makes before any OS call, in order: the
/// coalescing window, the raw queue bound, then the root path.
pub fn validate_start(config: &WatcherConfig, root_path: &[u16]) -> (r: Result<(), StartError>)
    ensures
        r == (if config.window == 0 || config.raw_queue_bound == 0 {
            Err(StartError::InvalidConfig)
        } else if !root_path_encodable(root_path@) {
            Err(StartError::InvalidRootPath)
        } else {
            Ok(())
        }),
{
    if config.window == 0 || config.raw_queue_bound == 0 {
        return Err(StartError::InvalidConfig);
    }
    if root_path.len() == 0 {
        return Err(StartError::InvalidRootPath);
    }
    let mut i: usize = 0;
    while i < root_path.len()
        invariant
            config.window > 0,
            config.raw_queue_bound > 0,
            i <= root_path.len(),
            forall|k: int| 0 <= k < i ==> root_path@[k] != 0u16,
        decreases root_path.len() - i,
    {
        if root_path[i] == 0 {
            assert(root_path@[i as int] == 0u16);
            return Err(StartError::InvalidRootPath);
        }
        i = i + 1;
    }
    assert(!root_path@.contains(0u16));
    Ok(())
}

/// The coalescer state of a watch that only ever saw `root` at `generation`:
/// nothing else is tracked and nothing was rejected.
pub open spec fn single_root(v: CoalescerView, root: u64, generation: u64) -> bool {
    &&& bounded(v)
    &&& v.max_tracked_roots == COALESCER_ROOT_BOUND
    &&& v.rejected == 0
    &&& forall|r: u64| #[trigger] v.windows.contains_key(r) ==> r == root && v.windows[r].generation == generation
    &&& forall|r: u64| #[trigger] v.lost.contains_key(r) ==> r == root && v.lost[r] == generation
}

/// The coalescer state after one poll's signals: the drained activity (at
/// most one window opens however many events there were), the coverage-loss
/// flag, and the final loss raised when the watch has just been seen ended.
pub open spec fn after_signals(v: CoalescerView, root: u64, generation: u64, now: u64, activity: u64, coverage_lost: bool, end_loss: bool) -> CoalescerView {
    let v1 = if activity > 0 { after_activity(v, root, generation, now) } else { v };
    let v2 = if coverage_lost { after_coverage_lost(v1, root, generation) } else { v1 };
    if end_loss { after_coverage_lost(v2, root, generation) } else { v2 }
}

/// The consumer side of one live watch: its coalescer, fed only with this
/// watch's root and generation, the terminal outcome once observed, and
/// whether the final coverage-loss hint was raised.
pub struct WatchSession {
    coalescer: Coalescer,
    root: RootId,
    generation: u64,
    ended: Option<WatchOutcome>,
    loss_signaled: bool,
}

/// The model of a watch session.
pub struct WatchSessionView {
    pub coalescer: CoalescerView,
    pub root: RootId,
    pub generation: u64,
    pub ended: Option<WatchOutcome>,
    pub loss_signaled: bool,
}

impl View for WatchSession {
    type V = WatchSessionView;

    closed spec fn view(&self) -> WatchSessionView {
        WatchSessionView {
            coalescer: self.coalescer@,
            root: self.root,
            generation: self.generation,
            ended: self.ended,
            loss_signaled: self.loss_signaled,
        }
    }
}

proof fn lemma_single_root_steps(v: CoalescerView, root: u64, generation: u64, now: u64)
    requires
        single_root(v, root, generation),
    ensures
        generation_fresh(v, root, generation),
        single_root(after_activity(v, root, generation, now), root, generation),
        after_activity(after_activity(v, root, generation, now), root, generation, now)
            == after_activity(v, root, generation, now),
        after_activity(v, root, generation, now).windows.contains_key(root),
        single_root(after_coverage_lost(v, root, generation), root, generation),
        after_coverage_lost(v, root, generation).lost.contains_key(root),
        single_root(after_poll(v, now), root, generation),
{
    let t = v.windows.dom().union(v.lost.dom());
    assert(t.subset_of(set![root]));
    vstd::set_lib::lemma_len_subset(t, set![root]);
    let a = after_activity(v, root, generation, now);
    assert(a.windows.dom().union(a.lost.dom()).subset_of(set![root]));
    vstd::set_lib::lemma_len_subset(a.windows.dom().union(a.lost.dom()), set![root]);
    vstd::set_lib::lemma_len_subset(a.windows.dom(), a.windows.dom().union(a.lost.dom()));
    vstd::set_lib::lemma_len_subset(a.lost.dom(), a.windows.dom().union(a.lost.dom()));
    let c = after_coverage_lost(v, root, generation);
    assert(c.windows.dom().union(c.lost.dom()).subset_of(set![root]));
    vstd::set_lib::lemma_len_subset(c.windows.dom().union(c.lost.dom()), set![root]);
    vstd::set_lib::lemma_len_subset(c.windows.dom(), c.windows.dom().union(c.lost.dom()));
    vstd::set_lib::lemma_len_subset(c.lost.dom(), c.windows.dom().union(c.lost.dom()));
    let p = after_poll(v, now);
    assert(p.windows.dom().union(p.lost.dom()).subset_of(set![root]));
    vstd::set_lib::lemma_len_subset(p.windows.dom().union(p.lost.dom()), set![root]);
    vstd::set_lib::lemma_len_subset(p.windows.dom(), p.windows.dom().union(p.lost.dom()));
    assert(p.lost.dom() =~= Set::<u64>::empty());
}

impl WatchSession {
    /// The coalescer holds only this watch's root and generation.
    pub closed spec fn well_formed(&self) -> bool {
        single_root(self.coalescer@, self.root.0, self.generation)
    }

    /// Starts the consumer side of a watch of `root` with `config`; a zero
    /// window or a zero raw queue bound is an invalid configuration.
    pub fn new(root: RootId, config: &WatcherConfig) -> (r: Result<Self, StartError>)
        ensures
            match r {
                Ok(s) => config.window > 0 && config.raw_queue_bound > 0 && s.well_formed() && s@.root == root
                    && s@.generation == config.generation && s@.ended is None && !s@.loss_signaled
                    && s@.coalescer.windows == Map::<u64, super::coalescer::WindowState>::empty()
                    && s@.coalescer.lost == Map::<u64, u64>::empty()
                    && s@.coalescer.window == config.window,
                Err(e) => (config.window == 0 || config.raw_queue_bound == 0) && e == StartError::InvalidConfig,
            },
    {
        let coalescer = match Coalescer::new(CoalescerConfig { window: config.window, max_tracked_roots: COALESCER_ROOT_BOUND }) {
            Ok(c) => c,
            Err(_) => return Err(StartError::InvalidConfig),
        };
        if config.raw_queue_bound == 0 {
            return Err(StartError::InvalidConfig);
        }
        Ok(WatchSession { coalescer, root, generation: config.generation, ended: None, loss_signaled: false })
    }

    /// Records the worker's terminal outcome once it is available.
    pub fn observe(&mut self, outcome: Option<WatchOutcome>)
        requires
            old(self).well_formed(),
        ensures
            final(self).well_formed(),
            final(self)@ == (WatchSessionView {
                ended: if outcome is Some { outcome } else { old(self)@.ended },
                ..old(self)@
            }),
    {
        if outcome.is_some() {
            self.ended = outcome;
        }
    }

    /// The typed terminal outcome of the watch, if it has ended.
    pub fn outcome(&self) -> (r: Option<WatchOutcome>)
        ensures
            r == self@.ended,
    {
        self.ended
    }

    /// One poll: applies the `activity` events drained from the raw queue,
    /// the coverage-loss flag and the worker's outcome, then returns the due
    /// hints. Path bytes and action codes are not inspected: hints carry only
    /// the fact of activity. The first poll that sees the watch ended raises
    /// one final coverage-loss hint, and later polls never raise it again.
    pub fn poll(&mut self, now: u64, activity: u64, coverage_lost: bool, outcome: Option<WatchOutcome>) -> (hints: Vec<WatchHint>)
        requires
            old(self).well_formed(),
        ensures
            final(self).well_formed(),
            ({
                let o = old(self)@;
                let ended = if outcome is Some { outcome } else { o.ended };
                let end_loss = ended is Some && !o.loss_signaled;
                let mid = after_signals(o.coalescer, o.root.0, o.generation, now, activity, coverage_lost, end_loss);
                &&& poll_hints_match(mid, now, hints@)
                &&& final(self)@ == (WatchSessionView {
                    coalescer: after_poll(mid, now),
                    ended,
                    loss_signaled: o.loss_signaled || end_loss,
                    ..o
                })
                &&& (end_loss ==> hints@.len() > 0 && hints@[0] == (WatchHint {
                    root: o.root,
                    generation: o.generation,
                    kind: super::HintKind::CoverageLost,
                }))
            }),
    {
        let ghost o = self@;
        let root = self.root;
        let generation = self.generation;
        let mut k: u64 = 0;
        while k < activity
            invariant
                k <= activity,
                self.root == root,
                self.generation == generation,
                self.ended == o.ended,
                self.loss_signaled == o.loss_signaled,
                root == o.root,
                generation == o.generation,
                single_root(self.coalescer@, root.0, generation),
                single_root(o.coalescer, root.0, generation),
                self.coalescer@ == (if k > 0 { after_activity(o.coalescer, root.0, generation, now) } else { o.coalescer }),
            decreases activity - k,
        {
            proof {
                lemma_single_root_steps(self.coalescer@, root.0, generation, now);
                lemma_single_root_steps(o.coalescer, root.0, generation, now);
            }
            self.coalescer.record_activity(root, generation, now);
            k = k + 1;
        }
        if coverage_lost {
            proof { lemma_single_root_steps(self.coalescer@, root.0, generation, now); }
            self.coalescer.record_coverage_lost(root, generation);
        }
        if outcome.is_some() {
            self.ended = outcome;
        }
        let end_loss = self.ended.is_some() && !self.loss_signaled;
        if end_loss {
            // An ended watch means coverage from watching is gone until the
            // consumer restarts it: surface one final coverage-loss hint.
            self.loss_signaled = true;
            proof { lemma_single_root_steps(self.coalescer@, root.0, generation, now); }
            self.coalescer.record_coverage_lost(root, generation);
        }
        let ghost mid = self.coalescer@;
        proof { lemma_single_root_steps(mid, root.0, generation, now); }
        let hints = self.coalescer.poll(now);
        proof {
            if end_loss {
                assert(mid.lost.contains_key(root.0));
                assert(mid.lost.dom() =~= set![root.0]);
                assert(mid.lost.len() == 1);
                assert(hints@[0].root.0 == root.0);
            }
        }
        hints
    }

    /// The watched root id.
    pub fn root_id(&self) -> (r: RootId)
        ensures
            r == self@.root,
    {
        self.root
    }

    /// The generation assigned by the caller for this watch attempt.
    pub fn generation(&self) -> (r: u64)
        ensures
            r == self@.generation,
    {
        self.generation
    }
}

} // verus!
