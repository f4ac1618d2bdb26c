//! Durable follow-up scheduling from watcher hints.
//!
//! Watcher hints are scheduling observations, never authority: a hint only
//! says that activity was observed (or that coverage was lost) under a root.
//! Each hint is fenced by the watcher generation that produced it, resolved
//! to a durable root through the host's mapping, and handed to storage's
//! deduplicated queue, which stays the dedup authority. A coverage-loss hint
//! schedules the same full reconciliation as any other trigger, with the
//! overflow cause recorded; it is never evidence of absence.
//!
//! Generation fencing: the host seeds each root with `watch_started` when it
//! installs the watch; until then the root's hints are dropped, so after a
//! restart a replayed hint from a dead generation is never adopted. A hint
//! older than the current generation is dropped, a strictly newer one is
//! adopted, and after `watch_ended` hints at or below the ended generation
//! are dropped until a strictly newer generation starts a fresh watch.
//!
//! Storage calls happen between the steps: for each hint the host calls
//! `route_hint`, performs the enqueue when a durable root was returned, and
//! reports the reply with `record_reply`; after the batch it calls
//! `finish_batch`. No path ever crosses this boundary.
use vstd::prelude::*;

use crate::watcher::sorted_keys::{as_map, get, keys_sorted, put};
use crate::watcher::{HintKind, RootId, WatchHint};

verus! {

/// Why a follow-up was requested. Safe diagnostic metadata only.
#[derive(Clone, Copy, Debug, PartialEq, Eq, Structural)]
pub enum FollowUpCause {
    /// Coalesced activity inside one watcher window.
    ActivityBurst,
    /// The watcher lost coverage: events may have been missed. The follow-up
    /// is a full reconciliation and never evidence of absence.
    Overflow,
}

/// One durable follow-up request produced from a watcher hint.
#[derive(Clone, Debug, PartialEq, Eq)]
pub struct FollowUpRequest {
    /// The watcher root id that produced the hint.
    pub root: RootId,
    /// The durable storage root id the follow-up targets.
    pub storage_root_id: String,
    /// The durable job identity of the follow-up.
    pub job_id: String,
    /// Storage merged this request onto an existing queued or running slot.
    pub coalesced: bool,
    pub cause: FollowUpCause,
}

/// What one batch of hints did.
#[derive(Clone, Debug, PartialEq, Eq)]
pub struct FollowUpOutcome {
    /// One entry per hint that produced (or coalesced onto) a follow-up.
    pub requests: Vec<FollowUpRequest>,
    /// Hints dropped as stale-generation or unseeded-watch signals.
    pub stale_generation_dropped: usize,
    /// Hints dropped because no durable root matched.
    pub unknown_root_dropped: usize,
    /// Hints suppressed by storage (disabled root).
    pub suppressed: usize,
    /// Requests driven by a coverage-loss signal.
    pub overflow: usize,
}

impl Default for FollowUpOutcome {
    fn default() -> (r: Self)
        ensures
            r.requests@.len() == 0,
            r.stale_generation_dropped == 0,
            r.unknown_root_dropped == 0,
            r.suppressed == 0,
            r.overflow == 0,
    {
        FollowUpOutcome {
            requests: Vec::new(),
            stale_generation_dropped: 0,
            unknown_root_dropped: 0,
            suppressed: 0,
            overflow: 0,
        }
    }
}

/// Resolves a watcher root id to the durable storage root id; `None` for
/// roots the host no longer tracks. Only opaque ids cross this boundary.
pub trait RootIdMapping {
    /// The durable root id the mapping holds for `root`, if any. An
    /// implementation defines it as the mapping it answers from; the
    /// default (no mapping) meets the contract below only for a mapping
    /// that knows no root.
    closed spec fn mapped(&self, root: RootId) -> Option<Seq<char>> {
        None
    }

    fn storage_root_id(&self, root: RootId) -> (r: Option<String>)
        ensures
            match r {
                Some(id) => self.mapped(root) == Some(id@),
                None => self.mapped(root) is None,
            },
    ;
}

/// The watch state of one root as the adapter observed it.
#[derive(Clone, Copy, Debug, PartialEq, Eq, Structural)]
pub enum RootWatchState {
    /// A live watch; hints at this generation are current.
    Active(u64),
    /// The watch ended; hints at or below this generation are stale until a
    /// strictly newer generation starts a fresh watch.
    Ended(u64),
}

/// What the host does with one hint.
#[derive(Clone, Debug, PartialEq, Eq)]
pub enum HintRoute {
    /// Dropped by the generation fence.
    Stale,
    /// Dropped: no durable root matched.
    UnknownRoot,
    /// Enqueue a follow-up for this durable root.
    Enqueue(String),
}

/// Storage's reply to one enqueue.
#[derive(Clone, Debug, PartialEq, Eq)]
pub enum EnqueueReply {
    Queued { job_id: String, coalesced: bool },
    /// The root was removed since it was mapped.
    RootNotFound,
    /// The root is disabled: storage refused the request.
    RootDisabled,
    /// Any other storage error: the batch stops with it.
    Failed,
}

/// Whether a hint at `generation` for a root in state `state` passes the
/// fence, and the root's state afterwards.
pub open spec fn fence_spec(state: Option<RootWatchState>, generation: u64) -> (bool, Option<RootWatchState>) {
    match state {
        None => (false, None),
        Some(RootWatchState::Active(current)) => if generation == current {
            (true, state)
        } else if generation > current {
            (true, Some(RootWatchState::Active(generation)))
        } else {
            (false, state)
        },
        Some(RootWatchState::Ended(current)) => if generation > current {
            (true, Some(RootWatchState::Active(generation)))
        } else {
            (false, state)
        },
    }
}

/// Translates coalesced watcher hints into durable follow-up requests. It
/// keeps only a per-root generation table and counters, bounded by the
/// number of configured roots.
pub struct WatcherFollowUpAdapter<M: RootIdMapping> {
    mapping: M,
    generations: Vec<(u64, RootWatchState)>,
    overflow_follow_ups: Vec<(u64, u64)>,
    stale_dropped: usize,
    unknown_dropped: usize,
    suppressed: usize,
}

/// The model of an adapter: the generation table, the cumulative overflow
/// follow-ups per root, and the cumulative counters.
pub struct AdapterView {
    pub generations: Map<u64, RootWatchState>,
    pub overflow_follow_ups: Map<u64, u64>,
    pub stale_dropped: usize,
    pub unknown_dropped: usize,
    pub suppressed: usize,
}

pub open spec fn state_of(gens: Map<u64, RootWatchState>, root: u64) -> Option<RootWatchState> {
    if gens.contains_key(root) { Some(gens[root]) } else { None }
}

pub open spec fn overflow_count(m: Map<u64, u64>, root: u64) -> u64 {
    if m.contains_key(root) { m[root] } else { 0 }
}

impl<M: RootIdMapping> View for WatcherFollowUpAdapter<M> {
    type V = AdapterView;

    closed spec fn view(&self) -> AdapterView {
        AdapterView {
            generations: as_map(self.generations@),
            overflow_follow_ups: as_map(self.overflow_follow_ups@),
            stale_dropped: self.stale_dropped,
            unknown_dropped: self.unknown_dropped,
            suppressed: self.suppressed,
        }
    }
}

impl<M: RootIdMapping> WatcherFollowUpAdapter<M> {
    /// The host's root mapping the adapter routes through.
    pub closed spec fn root_mapping(&self) -> M {
        self.mapping
    }

    pub closed spec fn well_formed(&self) -> bool {
        keys_sorted(self.generations@) && keys_sorted(self.overflow_follow_ups@)
    }

    /// A fresh adapter over the host's root mapping. No hint is accepted
    /// until the host seeds each root with `watch_started`.
    pub fn new(mapping: M) -> (r: Self)
        ensures
            r.well_formed(),
            r@.generations == Map::<u64, RootWatchState>::empty(),
            r@.overflow_follow_ups == Map::<u64, u64>::empty(),
            r@.stale_dropped == 0 && r@.unknown_dropped == 0 && r@.suppressed == 0,
    {
        let r = WatcherFollowUpAdapter {
            mapping,
            generations: Vec::new(),
            overflow_follow_ups: Vec::new(),
            stale_dropped: 0,
            unknown_dropped: 0,
            suppressed: 0,
        };
        assert(as_map(r.generations@) =~= Map::<u64, RootWatchState>::empty());
        assert(as_map(r.overflow_follow_ups@) =~= Map::<u64, u64>::empty());
        r
    }

    /// The host started (or restarted) a live watch for `root` at
    /// `generation`. Seeding the same generation again is idempotent.
    pub fn watch_started(&mut self, root: RootId, generation: u64)
        requires
            old(self).well_formed(),
        ensures
            final(self).well_formed(),
            final(self)@ == (AdapterView {
                generations: old(self)@.generations.insert(root.0, RootWatchState::Active(generation)),
                ..old(self)@
            }),
    {
        put(&mut self.generations, root.0, RootWatchState::Active(generation));
    }

    /// The watch for `root` ended: replayed hints from it are dropped until
    /// a strictly newer generation starts a fresh watch. An unseeded root
    /// stays unseeded.
    pub fn watch_ended(&mut self, root: RootId)
        requires
            old(self).well_formed(),
        ensures
            final(self).well_formed(),
            final(self)@ == (AdapterView {
                generations: match state_of(old(self)@.generations, root.0) {
                    None => old(self)@.generations,
                    Some(RootWatchState::Active(g)) => old(self)@.generations.insert(root.0, RootWatchState::Ended(g)),
                    Some(RootWatchState::Ended(g)) => old(self)@.generations.insert(root.0, RootWatchState::Ended(g)),
                },
                ..old(self)@
            }),
    {
        let generation = match get(&self.generations, root.0) {
            Some(RootWatchState::Active(g)) => g,
            Some(RootWatchState::Ended(g)) => g,
            None => return,
        };
        put(&mut self.generations, root.0, RootWatchState::Ended(generation));
    }

    /// The generation fence: accepts the current generation, adopts a
    /// strictly newer one, and drops older, ended or unseeded ones.
    fn fence(&mut self, root: RootId, generation: u64) -> (accepted: bool)
        requires
            old(self).well_formed(),
        ensures
            final(self).well_formed(),
            final(self).root_mapping() == old(self).root_mapping(),
            accepted == fence_spec(state_of(old(self)@.generations, root.0), generation).0,
            final(self)@ == (AdapterView {
                generations: match fence_spec(state_of(old(self)@.generations, root.0), generation).1 {
                    Some(s) => old(self)@.generations.insert(root.0, s),
                    None => old(self)@.generations,
                },
                ..old(self)@
            }),
    {
        match get(&self.generations, root.0) {
            None => false,
            Some(RootWatchState::Active(current)) => {
                if generation == current {
                    proof {
                        assert(old(self)@.generations.insert(root.0, RootWatchState::Active(current)) =~= old(self)@.generations);
                    }
                    true
                } else if generation > current {
                    put(&mut self.generations, root.0, RootWatchState::Active(generation));
                    true
                } else {
                    proof {
                        assert(old(self)@.generations.insert(root.0, RootWatchState::Active(current)) =~= old(self)@.generations);
                    }
                    false
                }
            },
            Some(RootWatchState::Ended(current)) => {
                if generation > current {
                    put(&mut self.generations, root.0, RootWatchState::Active(generation));
                    true
                } else {
                    proof {
                        assert(old(self)@.generations.insert(root.0, RootWatchState::Ended(current)) =~= old(self)@.generations);
                    }
                    false
                }
            },
        }
    }

    /// The first step for one hint: the generation fence, then the host's
    /// root mapping. A hint the fence accepts is enqueued for the durable
    /// root the mapping answers, or dropped as unknown when it answers
    /// none. A dropped hint is counted in `outcome`.
    pub fn route_hint(&mut self, hint: WatchHint, outcome: &mut FollowUpOutcome) -> (route: HintRoute)
        requires
            old(self).well_formed(),
            old(outcome).stale_generation_dropped < usize::MAX,
            old(outcome).unknown_root_dropped < usize::MAX,
        ensures
            final(self).well_formed(),
            final(self)@.overflow_follow_ups == old(self)@.overflow_follow_ups,
            final(self)@.stale_dropped == old(self)@.stale_dropped,
            final(self)@.unknown_dropped == old(self)@.unknown_dropped,
            final(self)@.suppressed == old(self)@.suppressed,
            final(self)@.generations == match fence_spec(state_of(old(self)@.generations, hint.root.0), hint.generation).1 {
                Some(s) => old(self)@.generations.insert(hint.root.0, s),
                None => old(self)@.generations,
            },
            !fence_spec(state_of(old(self)@.generations, hint.root.0), hint.generation).0 <==> route == HintRoute::Stale,
            route == HintRoute::Stale ==> *final(outcome) == (FollowUpOutcome {
                stale_generation_dropped: (old(outcome).stale_generation_dropped + 1) as usize,
                ..*old(outcome)
            }),
            route == HintRoute::UnknownRoot ==> *final(outcome) == (FollowUpOutcome {
                unknown_root_dropped: (old(outcome).unknown_root_dropped + 1) as usize,
                ..*old(outcome)
            }),
            route is Enqueue ==> *final(outcome) == *old(outcome),
            final(self).root_mapping() == old(self).root_mapping(),
            fence_spec(state_of(old(self)@.generations, hint.root.0), hint.generation).0 ==> (route == HintRoute::UnknownRoot
                <==> old(self).root_mapping().mapped(hint.root) is None),
            route is Enqueue <==> fence_spec(state_of(old(self)@.generations, hint.root.0), hint.generation).0
                && old(self).root_mapping().mapped(hint.root) is Some,
            route matches HintRoute::Enqueue(id) ==> old(self).root_mapping().mapped(hint.root) == Some(id@),
    {
        if !self.fence(hint.root, hint.generation) {
            outcome.stale_generation_dropped = outcome.stale_generation_dropped + 1;
            return HintRoute::Stale;
        }
        match self.mapping.storage_root_id(hint.root) {
            None => {
                outcome.unknown_root_dropped = outcome.unknown_root_dropped + 1;
                HintRoute::UnknownRoot
            },
            Some(id) => HintRoute::Enqueue(id),
        }
    }

    /// The second step for one routed hint: storage's reply. A queued
    /// request is recorded with its cause (coverage loss counts as an
    /// overflow follow-up for the root); a removed root counts as unknown, a
    /// disabled one as suppressed. `false` when storage failed and the batch
    /// must stop with that error.
    pub fn record_reply(&mut self, hint: WatchHint, storage_root_id: String, reply: EnqueueReply, outcome: &mut FollowUpOutcome) -> (ok: bool)
        requires
            old(self).well_formed(),
            overflow_count(old(self)@.overflow_follow_ups, hint.root.0) < u64::MAX,
            old(outcome).overflow < usize::MAX,
            old(outcome).unknown_root_dropped < usize::MAX,
            old(outcome).suppressed < usize::MAX,
        ensures
            final(self).well_formed(),
            final(self)@.generations == old(self)@.generations,
            final(self)@.stale_dropped == old(self)@.stale_dropped,
            final(self)@.unknown_dropped == old(self)@.unknown_dropped,
            final(self)@.suppressed == old(self)@.suppressed,
            ok == !(reply is Failed),
            match reply {
                EnqueueReply::Queued { job_id, coalesced } => {
                    let overflow = hint.kind == HintKind::CoverageLost;
                    &&& final(self)@.overflow_follow_ups == (if overflow {
                        old(self)@.overflow_follow_ups.insert(hint.root.0, (overflow_count(old(self)@.overflow_follow_ups, hint.root.0) + 1) as u64)
                    } else {
                        old(self)@.overflow_follow_ups
                    })
                    &&& final(outcome).requests@ == old(outcome).requests@.push(FollowUpRequest {
                        root: hint.root,
                        storage_root_id,
                        job_id,
                        coalesced,
                        cause: if overflow { FollowUpCause::Overflow } else { FollowUpCause::ActivityBurst },
                    })
                    &&& final(outcome).overflow == (if overflow { old(outcome).overflow + 1 } else { old(outcome).overflow as int })
                    &&& final(outcome).stale_generation_dropped == old(outcome).stale_generation_dropped
                    &&& final(outcome).unknown_root_dropped == old(outcome).unknown_root_dropped
                    &&& final(outcome).suppressed == old(outcome).suppressed
                },
                EnqueueReply::RootNotFound => final(self)@.overflow_follow_ups == old(self)@.overflow_follow_ups
                    && *final(outcome) == (FollowUpOutcome {
                        unknown_root_dropped: (old(outcome).unknown_root_dropped + 1) as usize,
                        ..*old(outcome)
                    }),
                EnqueueReply::RootDisabled => final(self)@.overflow_follow_ups == old(self)@.overflow_follow_ups
                    && *final(outcome) == (FollowUpOutcome { suppressed: (old(outcome).suppressed + 1) as usize, ..*old(outcome) }),
                EnqueueReply::Failed => final(self)@.overflow_follow_ups == old(self)@.overflow_follow_ups
                    && *final(outcome) == *old(outcome),
            },
    {
        match reply {
            EnqueueReply::Queued { job_id, coalesced } => {
                let cause = match hint.kind {
                    HintKind::CoverageLost => {
                        let n = match get(&self.overflow_follow_ups, hint.root.0) {
                            Some(n) => n,
                            None => 0,
                        };
                        put(&mut self.overflow_follow_ups, hint.root.0, n + 1);
                        FollowUpCause::Overflow
                    },
                    HintKind::ReconciliationRequested => FollowUpCause::ActivityBurst,
                };
                if cause == FollowUpCause::Overflow {
                    outcome.overflow = outcome.overflow + 1;
                }
                outcome.requests.push(FollowUpRequest { root: hint.root, storage_root_id, job_id, coalesced, cause });
                true
            },
            EnqueueReply::RootNotFound => {
                outcome.unknown_root_dropped = outcome.unknown_root_dropped + 1;
                true
            },
            EnqueueReply::RootDisabled => {
                outcome.suppressed = outcome.suppressed + 1;
                true
            },
            EnqueueReply::Failed => false,
        }
    }

    /// Folds a finished batch's counters into the cumulative ones.
    pub fn finish_batch(&mut self, outcome: &FollowUpOutcome)
        requires
            old(self)@.stale_dropped + outcome.stale_generation_dropped <= usize::MAX,
            old(self)@.unknown_dropped + outcome.unknown_root_dropped <= usize::MAX,
            old(self)@.suppressed + outcome.suppressed <= usize::MAX,
        ensures
            final(self)@ == (AdapterView {
                stale_dropped: (old(self)@.stale_dropped + outcome.stale_generation_dropped) as usize,
                unknown_dropped: (old(self)@.unknown_dropped + outcome.unknown_root_dropped) as usize,
                suppressed: (old(self)@.suppressed + outcome.suppressed) as usize,
                ..old(self)@
            }),
            final(self).well_formed() == old(self).well_formed(),
    {
        self.stale_dropped = self.stale_dropped + outcome.stale_generation_dropped;
        self.unknown_dropped = self.unknown_dropped + outcome.unknown_root_dropped;
        self.suppressed = self.suppressed + outcome.suppressed;
    }

    /// Cumulative overflow-driven follow-ups requested for `root`.
    pub fn overflow_follow_ups(&self, root: RootId) -> (n: u64)
        requires
            self.well_formed(),
        ensures
            n == overflow_count(self@.overflow_follow_ups, root.0),
    {
        match get(&self.overflow_follow_ups, root.0) {
            Some(n) => n,
            None => 0,
        }
    }

    /// Cumulative hints dropped as stale-generation signals.
    pub fn stale_generation_dropped(&self) -> (n: usize)
        ensures
            n == self@.stale_dropped,
    {
        self.stale_dropped
    }

    /// Cumulative hints dropped because no durable root matched.
    pub fn unknown_root_dropped(&self) -> (n: usize)
        ensures
            n == self@.unknown_dropped,
    {
        self.unknown_dropped
    }

    /// Cumulative hints suppressed by storage (disabled roots).
    pub fn suppressed(&self) -> (n: usize)
        ensures
            n == self@.suppressed,
    {
        self.suppressed
    }
}

/// Until the host seeds a root with `watch_started`, its hints are dropped:
/// after a restart a replayed hint from a dead generation is never adopted.
pub proof fn law_unseeded_roots_drop_hints(gens: Map<u64, RootWatchState>, root: u64, generation: u64)
    requires
        !gens.contains_key(root),
    ensures
        !fence_spec(state_of(gens, root), generation).0,
        fence_spec(state_of(gens, root), generation).1 is None,
{
}

/// A live watch accepts its own generation, adopts a strictly newer one and
/// drops an older one.
pub proof fn law_live_watch_fences_generations(current: u64, generation: u64)
    ensures
        fence_spec(Some(RootWatchState::Active(current)), generation).0 <==> generation >= current,
        generation > current ==> fence_spec(Some(RootWatchState::Active(current)), generation).1
            == Some(RootWatchState::Active(generation)),
        generation <= current ==> fence_spec(Some(RootWatchState::Active(current)), generation).1
            == Some(RootWatchState::Active(current)),
{
}

/// After a watch ends, replayed hints at or below its generation are
/// dropped; only a strictly newer generation revives the root.
pub proof fn law_ended_watch_drops_replays(ended: u64, generation: u64)
    ensures
        fence_spec(Some(RootWatchState::Ended(ended)), generation).0 <==> generation > ended,
        generation > ended ==> fence_spec(Some(RootWatchState::Ended(ended)), generation).1
            == Some(RootWatchState::Active(generation)),
        generation <= ended ==> fence_spec(Some(RootWatchState::Ended(ended)), generation).1
            == Some(RootWatchState::Ended(ended)),
{
}

/// The fence never moves a root's generation backwards.
pub proof fn law_fence_is_monotonic(state: RootWatchState, generation: u64)
    ensures
        match (state, fence_spec(Some(state), generation).1) {
            (RootWatchState::Active(a), Some(RootWatchState::Active(b))) => a <= b,
            (RootWatchState::Ended(a), Some(RootWatchState::Active(b))) => a < b,
            (RootWatchState::Ended(a), Some(RootWatchState::Ended(b))) => a == b,
            _ => false,
        },
{
}

} // verus!
