//! Filesystem watching for configured roots, reduced to bounded coalesced
//! hints.
//!
//! Hints are observations, never authority: a reconciliation hint says only
//! that activity was observed under a root; a coverage-lost hint says that
//! events were missed or the watch ended. Consumers turn both into a full,
//! non-authoritative reconciliation follow-up; missed events never imply
//! absence. No type here can carry an absolute path.
use vstd::prelude::*;

pub mod coalescer;
pub mod lifecycle;
pub mod path;
pub mod sorted_keys;

verus! {

/// Identifies one configured watch root. Opaque key supplied by the caller;
/// it carries no path material.
#[derive(Clone, Copy, Debug, PartialEq, Eq, PartialOrd, Ord, Hash, Structural)]
pub struct RootId(pub u64);

/// What a hint asks the consumer to do. Hints never decide file state.
#[derive(Clone, Copy, Debug, PartialEq, Eq, Structural)]
pub enum HintKind {
    /// Coalesced activity under the root. At most one per root per window.
    ReconciliationRequested,
    /// Coverage was lost: the OS notification buffer overflowed, the raw
    /// queue dropped events, a batch was truncated, or the watch ended.
    CoverageLost,
}

/// One coalesced hint, keyed by root id and the watch generation that
/// produced it so consumers can discard stale-generation signals.
#[derive(Clone, Copy, Debug, PartialEq, Eq, Structural)]
pub struct WatchHint {
    pub root: RootId,
    pub generation: u64,
    pub kind: HintKind,
}

/// Why a watch ended. Typed observations about the watch, never about
/// individual files; a `RootLost` outcome never proves any file is missing.
#[derive(Clone, Copy, Debug, PartialEq, Eq, Structural)]
pub enum EndReason {
    /// `stop()` was requested and the watch ended cleanly.
    Stopped,
    /// The configured root is no longer verifiably present at its path.
    RootLost,
    /// The OS refused to continue the watch (opaque OS status code).
    WatchFailed { os_code: u32 },
}

/// Typed terminal outcome of one watch generation.
#[derive(Clone, Copy, Debug, PartialEq, Eq, Structural)]
pub struct WatchOutcome {
    pub root: RootId,
    pub generation: u64,
    pub reason: EndReason,
}

/// A typed start failure. Variants never echo the root path.
#[derive(Clone, Copy, Debug, PartialEq, Eq, Structural)]
pub enum StartError {
    /// The root could not be opened as a directory watch handle, or the watch
    /// failed before arming because the root was lost.
    RootUnavailable { os_code: u32 },
    /// The opened handle is not a directory.
    NotADirectory,
    /// The root is a reparse point: a policy exclusion, distinct from I/O.
    ReparseRootExcluded,
    /// The root path could not be encoded for the OS boundary.
    InvalidRootPath,
    /// The configuration was rejected.
    InvalidConfig,
    /// A kernel resource needed for the watch was unavailable.
    ResourceUnavailable { os_code: u32 },
}

/// The consumer-facing watcher contract: coalesced hints keyed by root id,
/// plus the typed lifecycle outcome. Timestamps are caller-supplied
/// monotonic values in one unit scheme shared with the configured window.
pub trait WatcherPort {
    /// Drains pending raw signals, applies coalescing, and returns all hints
    /// currently due in deterministic order.
    fn poll_hints(&mut self, now: u64) -> Vec<WatchHint>;

    /// The typed terminal outcome of the watch, if it has ended.
    fn outcome(&mut self) -> Option<WatchOutcome>;
}

/// A process-relative monotonic reading in nanoseconds as a `u64`
/// timestamp, saturating at `u64::MAX` rather than wrapping.
pub fn elapsed_nanos_saturating(elapsed: u128) -> (r: u64)
    ensures
        r == if elapsed > u64::MAX { u64::MAX } else { elapsed as u64 },
{
    if elapsed > u64::MAX as u128 {
        u64::MAX
    } else {
        elapsed as u64
    }
}

} // verus!
