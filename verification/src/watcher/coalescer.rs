//! Deterministic coalescing of watcher activity into bounded hints.
//!
//! All timestamps are caller-supplied monotonic values in one unit scheme. A
//! burst collapses into at most one reconciliation hint per root per fixed,
//! non-extending window. Coverage loss is sticky and delivered on the next
//! poll, never windowed, because missed events must never imply absence.
use vstd::prelude::*;

use super::sorted_keys::{insert_at, locate, remove_at, set_at};
use super::{HintKind, RootId, WatchHint, WatchOutcome, WatcherPort};

verus! {

/// Coalescer configuration. `window` uses the same unit scheme as the
/// timestamps supplied to `record_activity` and `poll`.
#[derive(Clone, Copy, Debug, PartialEq, Eq, Structural)]
pub struct CoalescerConfig {
    pub window: u64,
    pub max_tracked_roots: usize,
}

impl Default for CoalescerConfig {
    fn default() -> (r: Self)
        ensures
            r.window == 1_000_000_000,
            r.max_tracked_roots == 64,
    {
        // One second in nanoseconds; a small root budget.
        CoalescerConfig { window: 1_000_000_000, max_tracked_roots: 64 }
    }
}

/// The configuration was invalid (zero window or zero root budget).
#[derive(Clone, Copy, Debug, PartialEq, Eq, Structural)]
pub struct InvalidCoalescerConfig;

/// One open coalescing window.
#[derive(Clone, Copy, Debug, PartialEq, Eq, Structural)]
pub struct WindowState {
    pub generation: u64,
    pub closes_at: u64,
}

/// The coalescer's state, kept well formed by every operation.
struct CoalescerCore {
    window: u64,
    max_tracked_roots: usize,
    /// Open windows, ascending by root.
    windows: Vec<(u64, WindowState)>,
    /// Pending coverage-loss marks (root, generation), ascending by root.
    lost: Vec<(u64, u64)>,
    rejected: u64,
}

/// The model of a coalescer: its configuration, the open windows and the
/// pending coverage-loss generations by root, and the rejection counter.
pub struct CoalescerView {
    pub window: u64,
    pub max_tracked_roots: usize,
    pub windows: Map<u64, WindowState>,
    pub lost: Map<u64, u64>,
    pub rejected: u64,
}

impl View for CoalescerCore {
    type V = CoalescerView;

    closed spec fn view(&self) -> CoalescerView {
        CoalescerView {
            window: self.window,
            max_tracked_roots: self.max_tracked_roots,
            windows: super::sorted_keys::as_map(self.windows@),
            lost: super::sorted_keys::as_map(self.lost@),
            rejected: self.rejected,
        }
    }
}

/// The roots that hold an open window or a pending coverage-loss mark.
pub open spec fn tracked_roots(v: CoalescerView) -> Set<u64> {
    v.windows.dom().union(v.lost.dom())
}

/// A root with both an open window and a pending loss mark has one
/// generation for both: a loss of another generation than the window's is
/// never kept beside it.
pub open spec fn generations_agree(v: CoalescerView) -> bool {
    forall|r: u64| #![trigger v.windows[r], v.lost[r]]
        v.windows.contains_key(r) && v.lost.contains_key(r) ==> v.lost[r] == v.windows[r].generation
}

/// The state bound: a positive window and root budget, and at most
/// `max_tracked_roots` roots holding an open window or a pending loss mark,
/// whose window and loss generations agree.
pub open spec fn bounded(v: CoalescerView) -> bool {
    &&& generations_agree(v)
    &&& within_budget(v)
}

/// A positive window and root budget, and at most `max_tracked_roots`
/// roots holding an open window or a pending loss mark.
pub open spec fn within_budget(v: CoalescerView) -> bool {
    &&& v.window > 0
    &&& v.max_tracked_roots > 0
    &&& tracked_roots(v).finite()
    &&& tracked_roots(v).len() <= v.max_tracked_roots
    &&& v.windows.len() <= v.max_tracked_roots
    &&& v.lost.len() <= v.max_tracked_roots
}

/// The window a fresh activity signal opens.
pub open spec fn fresh_window(v: CoalescerView, generation: u64, now: u64) -> WindowState {
    WindowState { generation, closes_at: if now + v.window > u64::MAX { u64::MAX } else { (now + v.window) as u64 } }
}

/// Generations never go backwards for a tracked root.
pub open spec fn generation_fresh(v: CoalescerView, root: u64, generation: u64) -> bool {
    &&& (v.windows.contains_key(root) ==> generation >= v.windows[root].generation)
    &&& (v.lost.contains_key(root) ==> generation >= v.lost[root])
}

/// The rejection counter after one more rejected signal; it stops at
/// `u64::MAX` rather than wrapping.
pub open spec fn counted(n: u64) -> u64 {
    if n == u64::MAX { n } else { (n + 1) as u64 }
}

/// The state after activity on `root` for `generation` at `now`.
pub open spec fn after_activity(v: CoalescerView, root: u64, generation: u64, now: u64) -> CoalescerView {
    if v.windows.contains_key(root) {
        if v.windows[root].generation != generation {
            CoalescerView {
                windows: v.windows.insert(root, fresh_window(v, generation, now)),
                lost: v.lost.remove(root),
                ..v
            }
        } else {
            v
        }
    } else {
        let lost = if v.lost.contains_key(root) && v.lost[root] != generation { v.lost.remove(root) } else { v.lost };
        if !lost.contains_key(root) && v.windows.len() + lost.len() >= v.max_tracked_roots {
            CoalescerView { lost, rejected: counted(v.rejected), ..v }
        } else {
            CoalescerView { windows: v.windows.insert(root, fresh_window(v, generation, now)), lost, ..v }
        }
    }
}

/// The state after a coverage loss on `root` for `generation`.
pub open spec fn after_coverage_lost(v: CoalescerView, root: u64, generation: u64) -> CoalescerView {
    if v.windows.contains_key(root) && v.windows[root].generation != generation {
        v
    } else if v.lost.contains_key(root) && v.lost[root] == generation {
        v
    } else if !v.windows.contains_key(root) && !v.lost.contains_key(root)
        && v.windows.len() + v.lost.len() >= v.max_tracked_roots {
        CoalescerView { rejected: counted(v.rejected), ..v }
    } else {
        CoalescerView { lost: v.lost.insert(root, generation), ..v }
    }
}

/// A window of `v` closes by `now` and is not subsumed by a coverage loss.
pub open spec fn window_due(v: CoalescerView, root: u64, now: u64) -> bool {
    v.windows.contains_key(root) && !v.lost.contains_key(root) && now >= v.windows[root].closes_at
}

/// `hints` is what a poll of `v` at `now` answers: one coverage-lost hint
/// per pending loss, ascending by root, then one reconciliation hint per due
/// window, ascending by root.
pub open spec fn poll_hints_match(v: CoalescerView, now: u64, hints: Seq<WatchHint>) -> bool {
    let k = v.lost.len() as int;
    &&& k <= hints.len()
    &&& (forall|i: int| 0 <= i < k ==> {
            &&& (#[trigger] hints[i]).kind == HintKind::CoverageLost
            &&& v.lost.contains_key(hints[i].root.0)
            &&& hints[i].generation == v.lost[hints[i].root.0]
        })
    &&& (forall|i: int| k <= i < hints.len() ==> {
            &&& (#[trigger] hints[i]).kind == HintKind::ReconciliationRequested
            &&& window_due(v, hints[i].root.0, now)
            &&& hints[i].generation == v.windows[hints[i].root.0].generation
        })
    &&& (forall|i: int, j: int| 0 <= i < j < k ==> (#[trigger] hints[i]).root.0 < (#[trigger] hints[j]).root.0)
    &&& (forall|i: int, j: int| k <= i < j < hints.len() ==> (#[trigger] hints[i]).root.0 < (#[trigger] hints[j]).root.0)
    &&& (forall|r: u64| window_due(v, r, now) ==> exists|i: int| k <= i < hints.len() && (#[trigger] hints[i]).root.0 == r)
}

/// The state after a poll at `now`: no pending loss, and only the windows
/// that neither closed nor were subsumed by a loss stay open.
pub open spec fn after_poll(v: CoalescerView, now: u64) -> CoalescerView {
    CoalescerView {
        windows: v.windows.restrict(v.windows.dom().filter(|r: u64| !v.lost.contains_key(r) && now < v.windows[r].closes_at)),
        lost: Map::empty(),
        ..v
    }
}

impl CoalescerCore {
    /// Keys sorted, a positive window and budget, and at most
    /// `max_tracked_roots` tracked roots.
    spec fn well_formed(&self) -> bool {
        &&& self.window > 0
        &&& self.max_tracked_roots > 0
        &&& super::sorted_keys::keys_sorted(self.windows@)
        &&& super::sorted_keys::keys_sorted(self.lost@)
        &&& tracked_roots(self@).len() <= self.max_tracked_roots
        &&& generations_agree(self@)
    }

    proof fn lemma_counts(self)
        requires
            super::sorted_keys::keys_sorted(self.windows@),
            super::sorted_keys::keys_sorted(self.lost@),
        ensures
            self@.windows.dom().finite(),
            self@.lost.dom().finite(),
            tracked_roots(self@).finite(),
            self@.windows.len() == self.windows@.len(),
            self@.lost.len() == self.lost@.len(),
            tracked_roots(self@).len() <= self.windows@.len() + self.lost@.len(),
    {
        super::sorted_keys::lemma_key_set_generic(self.windows@);
        super::sorted_keys::lemma_key_set_generic(self.lost@);
        assert(self@.windows.dom() =~= super::sorted_keys::key_set(self.windows@));
        assert(self@.lost.dom() =~= super::sorted_keys::key_set(self.lost@));
        vstd::set_lib::lemma_len_union(self@.windows.dom(), self@.lost.dom());
    }

    /// Builds a coalescer; a zero window or a zero root budget is refused.
    fn new(config: CoalescerConfig) -> (r: Result<Self, InvalidCoalescerConfig>)
        ensures
            match r {
                Ok(c) => c.well_formed() && config.window > 0 && config.max_tracked_roots > 0 && c@.window == config.window
                    && c@.max_tracked_roots == config.max_tracked_roots && c@.windows == Map::<u64, WindowState>::empty()
                    && c@.lost == Map::<u64, u64>::empty() && c@.rejected == 0,
                Err(_) => config.window == 0 || config.max_tracked_roots == 0,
            },
    {
        if config.window == 0 || config.max_tracked_roots == 0 {
            return Err(InvalidCoalescerConfig);
        }
        proof {
            assert(super::sorted_keys::as_map(Seq::<(u64, WindowState)>::empty()) =~= Map::<u64, WindowState>::empty());
            assert(super::sorted_keys::as_map(Seq::<(u64, u64)>::empty()) =~= Map::<u64, u64>::empty());
        }
        let c = CoalescerCore {
            window: config.window,
            max_tracked_roots: config.max_tracked_roots,
            windows: Vec::new(),
            lost: Vec::new(),
            rejected: 0,
        };
        proof {
            assert(tracked_roots(c@) =~= Set::<u64>::empty());
        }
        Ok(c)
    }

    proof fn lemma_bounded(self)
        requires
            self.well_formed(),
        ensures
            bounded(self@),
    {
        self.lemma_counts();
        Self::lemma_bound_subset(tracked_roots(self@), self@.windows.dom(), self.max_tracked_roots);
        Self::lemma_bound_subset(tracked_roots(self@), self@.lost.dom(), self.max_tracked_roots);
    }

    proof fn lemma_bound_subset(old_t: Set<u64>, new_t: Set<u64>, max: usize)
        requires
            old_t.finite(),
            old_t.len() <= max,
            new_t.subset_of(old_t),
        ensures
            new_t.finite(),
            new_t.len() <= max,
    {
        vstd::set_lib::lemma_len_subset(new_t, old_t);
    }

    /// Records raw activity on `root` for `generation` at time `now`.
    ///
    /// The first activity opens a fixed window closing at `now + window`
    /// (saturating); activity inside an open window never extends it.
    /// Activity stamped with a different generation than the open window
    /// replaces it and drops the root's pending loss: a restart never
    /// inherits the previous watch's state. A pending loss of a dead
    /// generation is dropped once a fresh generation observes activity. A
    /// signal for an untracked root beyond the tracking budget is rejected
    /// and counted.
    fn record_activity(&mut self, root: RootId, generation: u64, now: u64)
        requires
            old(self).well_formed(),
            generation_fresh(old(self)@, root.0, generation),
        ensures
            final(self).well_formed(),
            final(self)@ == after_activity(old(self)@, root.0, generation, now),
    {
        let ghost o = self@;
        proof { self.lemma_counts(); }
        let r = root.0;
        let fresh = WindowState { generation, closes_at: now.saturating_add(self.window) };
        assert(fresh == fresh_window(o, generation, now));
        match locate(&self.windows, r) {
            Ok(pos) => {
                proof { super::sorted_keys::lemma_as_map_index(self.windows@, pos as int); }
                if self.windows[pos].1.generation != generation {
                    set_at(&mut self.windows, pos, fresh);
                    if let Ok(lp) = locate(&self.lost, r) {
                        proof { super::sorted_keys::lemma_as_map_index(self.lost@, lp as int); }
                        remove_at(&mut self.lost, lp);
                    } else {
                        assert(o.lost.remove(r) =~= o.lost);
                    }
                    proof {
                        self.lemma_counts();
                        assert(self@.windows.dom() =~= o.windows.dom());
                        Self::lemma_bound_subset(tracked_roots(o), tracked_roots(self@), self.max_tracked_roots);
                        assert(self@ == after_activity(o, r, generation, now));
                    }
                }
            }
            Err(wpos) => {
                if let Ok(lp) = locate(&self.lost, r) {
                    proof { super::sorted_keys::lemma_as_map_index(self.lost@, lp as int); }
                    if self.lost[lp].1 != generation {
                        remove_at(&mut self.lost, lp);
                    }
                }
                let ghost l1 = self@.lost;
                assert(l1 == (if o.lost.contains_key(r) && o.lost[r] != generation { o.lost.remove(r) } else { o.lost }));
                proof { self.lemma_counts(); }
                let lost_has = locate(&self.lost, r).is_ok();
                proof {
                    if lost_has {
                        let lp = choose|k: int| 0 <= k < self.lost@.len() && self.lost@[k].0 == r;
                        super::sorted_keys::lemma_as_map_index(self.lost@, lp);
                    }
                    assert(lost_has == l1.contains_key(r));
                    Self::lemma_bound_subset(tracked_roots(o), l1.dom(), self.max_tracked_roots);
                }
                if !lost_has && self.windows.len() >= self.max_tracked_roots - self.lost.len() {
                    self.rejected = self.rejected.saturating_add(1);
                    proof {
                        Self::lemma_bound_subset(tracked_roots(o), tracked_roots(self@), self.max_tracked_roots);
                        assert(self@ == after_activity(o, r, generation, now));
                    }
                    return;
                }
                insert_at(&mut self.windows, wpos, r, fresh);
                proof {
                    let mid = CoalescerView { lost: l1, ..o };
                    Self::lemma_bound_subset(tracked_roots(o), tracked_roots(mid), self.max_tracked_roots);
                    self.lemma_counts();
                    if lost_has {
                        assert(tracked_roots(self@) =~= tracked_roots(mid));
                    } else {
                        assert(tracked_roots(self@) =~= tracked_roots(mid).insert(r));
                        vstd::set_lib::lemma_len_union(o.windows.dom(), l1.dom());
                    }
                    assert(self@ == after_activity(o, r, generation, now));
                }
            }
        }
    }

    /// Marks that events were missed for `root`. Sticky until the next poll;
    /// a stale-generation loss for a root whose window belongs to a newer
    /// watch is ignored; a loss for an untracked root beyond the tracking
    /// budget is rejected and counted.
    fn record_coverage_lost(&mut self, root: RootId, generation: u64)
        requires
            old(self).well_formed(),
        ensures
            final(self).well_formed(),
            final(self)@ == after_coverage_lost(old(self)@, root.0, generation),
    {
        let ghost o = self@;
        proof { self.lemma_counts(); }
        let r = root.0;
        let wloc = locate(&self.windows, r);
        proof {
            if let Ok(p) = wloc {
                super::sorted_keys::lemma_as_map_index(self.windows@, p as int);
            }
        }
        if let Ok(pos) = wloc {
            if self.windows[pos].1.generation != generation {
                return;
            }
        }
        match locate(&self.lost, r) {
            Ok(lp) => {
                proof { super::sorted_keys::lemma_as_map_index(self.lost@, lp as int); }
                if self.lost[lp].1 == generation {
                    return;
                }
                set_at(&mut self.lost, lp, generation);
                proof {
                    self.lemma_counts();
                    assert(self@.lost.dom() =~= o.lost.dom());
                    assert(tracked_roots(self@) =~= tracked_roots(o));
                    assert(self@ == after_coverage_lost(o, r, generation));
                }
            }
            Err(lp) => {
                proof { Self::lemma_bound_subset(tracked_roots(o), o.lost.dom(), self.max_tracked_roots); }
                if wloc.is_err() && self.windows.len() >= self.max_tracked_roots - self.lost.len() {
                    self.rejected = self.rejected.saturating_add(1);
                    proof {
                        assert(tracked_roots(self@) =~= tracked_roots(o));
                        assert(self@ == after_coverage_lost(o, r, generation));
                    }
                    return;
                }
                insert_at(&mut self.lost, lp, r, generation);
                proof {
                    self.lemma_counts();
                    if wloc.is_ok() {
                        assert(tracked_roots(self@) =~= tracked_roots(o));
                    } else {
                        assert(tracked_roots(self@) =~= tracked_roots(o).insert(r));
                    }
                    assert(self@ == after_coverage_lost(o, r, generation));
                }
            }
        }
    }

    /// Emits all currently due hints in deterministic order: coverage-loss
    /// hints first, then coalesced window hints, each ascending by root id.
    /// A coverage-loss hint subsumes any pending window for the same root.
    fn poll(&mut self, now: u64) -> (hints: Vec<WatchHint>)
        requires
            old(self).well_formed(),
        ensures
            final(self).well_formed(),
            poll_hints_match(old(self)@, now, hints@),
            final(self)@ == after_poll(old(self)@, now),
    {
        let ghost o = self@;
        proof {
            self.lemma_counts();
            assert(tracked_roots(o).len() <= self.max_tracked_roots);
        }
        let mut hints: Vec<WatchHint> = Vec::new();
        let mut lost: Vec<(u64, u64)> = Vec::new();
        std::mem::swap(&mut lost, &mut self.lost);
        let ghost lv = lost@;
        let mut i: usize = 0;
        while i < lost.len()
            invariant
                lv == lost@,
                o.lost == super::sorted_keys::as_map(lv),
                super::sorted_keys::keys_sorted(lv),
                super::sorted_keys::keys_sorted(self.windows@),
                self.lost@.len() == 0,
                self.max_tracked_roots == o.max_tracked_roots,
                self.window == o.window,
                self.rejected == o.rejected,
                i <= lost.len(),
                hints@.len() == i,
                forall|k: int| 0 <= k < i ==> (#[trigger] hints@[k]).root.0 == lv[k].0
                    && hints@[k].generation == lv[k].1 && hints@[k].kind == HintKind::CoverageLost,
                forall|x: u64| #[trigger] super::sorted_keys::as_map(self.windows@).contains_key(x) <==>
                    (o.windows.contains_key(x) && !(exists|k: int| 0 <= k < i && lv[k].0 == x)),
                forall|x: u64| #[trigger] super::sorted_keys::as_map(self.windows@).contains_key(x) ==>
                    super::sorted_keys::as_map(self.windows@)[x] == o.windows[x],
            decreases lost.len() - i,
        {
            let (root, generation) = lost[i];
            if let Ok(p) = locate(&self.windows, root) {
                proof { super::sorted_keys::lemma_as_map_index(self.windows@, p as int); }
                remove_at(&mut self.windows, p);
            } else {
                proof {
                    if super::sorted_keys::as_map(self.windows@).contains_key(root) {
                        assert(super::sorted_keys::has_key(self.windows@, root));
                    }
                }
            }
            hints.push(WatchHint { root: RootId(root), generation, kind: HintKind::CoverageLost });
            i = i + 1;
        }
        let ghost w1 = self.windows@;
        let ghost k0 = hints@.len() as int;
        proof {
            assert(k0 == o.lost.len());
            assert forall|x: u64| #[trigger] super::sorted_keys::as_map(w1).contains_key(x) <==>
                (o.windows.contains_key(x) && !o.lost.contains_key(x)) by {
                if o.lost.contains_key(x) {
                    let k = choose|k: int| 0 <= k < lv.len() && (#[trigger] lv[k]).0 == x;
                    assert(lv[k].0 == x);
                }
                if exists|k: int| 0 <= k < lv.len() && lv[k].0 == x {
                    let k = choose|k: int| 0 <= k < lv.len() && lv[k].0 == x;
                    super::sorted_keys::lemma_as_map_index(lv, k);
                }
            }
        }
        let mut kept: Vec<(u64, WindowState)> = Vec::new();
        let mut j: usize = 0;
        while j < self.windows.len()
            invariant
                w1 == self.windows@,
                super::sorted_keys::keys_sorted(w1),
                lv == lost@,
                o.lost == super::sorted_keys::as_map(lv),
                super::sorted_keys::keys_sorted(lv),
                k0 == lv.len(),
                self.lost@.len() == 0,
                self.max_tracked_roots == o.max_tracked_roots,
                self.window == o.window,
                self.rejected == o.rejected,
                forall|x: u64| #[trigger] super::sorted_keys::as_map(w1).contains_key(x) <==>
                    (o.windows.contains_key(x) && !o.lost.contains_key(x)),
                forall|x: u64| #[trigger] super::sorted_keys::as_map(w1).contains_key(x) ==>
                    super::sorted_keys::as_map(w1)[x] == o.windows[x],
                j <= w1.len(),
                k0 <= hints@.len(),
                forall|k: int| 0 <= k < k0 ==> (#[trigger] hints@[k]).root.0 == lv[k].0
                    && hints@[k].generation == lv[k].1 && hints@[k].kind == HintKind::CoverageLost,
                forall|k: int| k0 <= k < hints@.len() ==> {
                    &&& (#[trigger] hints@[k]).kind == HintKind::ReconciliationRequested
                    &&& super::sorted_keys::as_map(w1).contains_key(hints@[k].root.0)
                    &&& now >= super::sorted_keys::as_map(w1)[hints@[k].root.0].closes_at
                    &&& hints@[k].generation == super::sorted_keys::as_map(w1)[hints@[k].root.0].generation
                },
                forall|a: int, b: int| k0 <= a < b < hints@.len() ==> (#[trigger] hints@[a]).root.0 < (#[trigger] hints@[b]).root.0,
                forall|a: int, t: int| k0 <= a < hints@.len() && j <= t < w1.len() ==> (#[trigger] hints@[a]).root.0 < (#[trigger] w1[t]).0,
                forall|t: int| 0 <= t < j && now >= (#[trigger] w1[t]).1.closes_at ==>
                    exists|k: int| k0 <= k < hints@.len() && (#[trigger] hints@[k]).root.0 == w1[t].0,
                super::sorted_keys::keys_sorted(kept@),
                forall|a: int, t: int| 0 <= a < kept@.len() && j <= t < w1.len() ==> (#[trigger] kept@[a]).0 < (#[trigger] w1[t]).0,
                forall|x: u64| #[trigger] super::sorted_keys::has_key(kept@, x) <==>
                    (exists|t: int| 0 <= t < j && (#[trigger] w1[t]).0 == x && now < w1[t].1.closes_at),
                forall|a: int| 0 <= a < kept@.len() ==> super::sorted_keys::has_key(w1, (#[trigger] kept@[a]).0)
                    && super::sorted_keys::as_map(w1)[kept@[a].0] == kept@[a].1,
            decreases w1.len() - j,
        {
            let (root, state) = self.windows[j];
            let ghost h_before = hints@;
            proof { super::sorted_keys::lemma_as_map_index(w1, j as int); }
            if now >= state.closes_at {
                hints.push(WatchHint { root: RootId(root), generation: state.generation, kind: HintKind::ReconciliationRequested });
            } else {
                let ghost before = kept@;
                kept.push((root, state));
                proof {
                    assert forall|x: u64| #[trigger] super::sorted_keys::has_key(kept@, x) <==>
                        (exists|t: int| 0 <= t < j + 1 && (#[trigger] w1[t]).0 == x && now < w1[t].1.closes_at) by {
                        if super::sorted_keys::has_key(kept@, x) {
                            let a = choose|a: int| 0 <= a < kept@.len() && (#[trigger] kept@[a]).0 == x;
                            if a < before.len() {
                                assert(super::sorted_keys::has_key(before, x));
                            }
                        }
                        if exists|t: int| 0 <= t < j + 1 && (#[trigger] w1[t]).0 == x && now < w1[t].1.closes_at {
                            let t = choose|t: int| 0 <= t < j + 1 && (#[trigger] w1[t]).0 == x && now < w1[t].1.closes_at;
                            if t < j {
                                assert(super::sorted_keys::has_key(before, x));
                                let a = choose|a: int| 0 <= a < before.len() && (#[trigger] before[a]).0 == x;
                                assert(kept@[a].0 == x);
                            } else {
                                assert(kept@[before.len() as int].0 == x);
                            }
                        }
                    }
                }
            }
            proof {
                assert forall|a: int, t: int| k0 <= a < hints@.len() && j + 1 <= t < w1.len() implies (#[trigger] hints@[a]).root.0 < (#[trigger] w1[t]).0 by {
                    assert(w1[j as int].0 < w1[t].0);
                }
                assert forall|a: int, t: int| 0 <= a < kept@.len() && j + 1 <= t < w1.len() implies (#[trigger] kept@[a]).0 < (#[trigger] w1[t]).0 by {
                    assert(w1[j as int].0 < w1[t].0);
                }
                assert forall|t: int| 0 <= t < j + 1 && now >= (#[trigger] w1[t]).1.closes_at implies
                    exists|k: int| k0 <= k < hints@.len() && (#[trigger] hints@[k]).root.0 == w1[t].0 by {
                    if t == j {
                        assert(hints@[hints@.len() - 1].root.0 == w1[t].0);
                    } else {
                        let k = choose|k: int| k0 <= k < h_before.len() && (#[trigger] h_before[k]).root.0 == w1[t].0;
                        assert(hints@[k] == h_before[k]);
                    }
                }
            }
            j = j + 1;
        }
        let ghost kv = kept@;
        self.windows = kept;
        proof {
            assert(self.windows@ == kv);
            self.lemma_counts();
            let n = self@;
            let expect = after_poll(o, now);
            assert(n.lost =~= Map::<u64, u64>::empty()) by {
                assert(super::sorted_keys::as_map(self.lost@) =~= Map::<u64, u64>::empty());
            }
            assert forall|x: u64| #[trigger] n.windows.contains_key(x) <==> expect.windows.contains_key(x) by {
                if n.windows.contains_key(x) {
                    assert(super::sorted_keys::has_key(self.windows@, x));
                    let t = choose|t: int| 0 <= t < w1.len() && (#[trigger] w1[t]).0 == x && now < w1[t].1.closes_at;
                    super::sorted_keys::lemma_as_map_index(w1, t);
                }
                if expect.windows.contains_key(x) {
                    assert(super::sorted_keys::as_map(w1).contains_key(x));
                    let t = choose|t: int| 0 <= t < w1.len() && (#[trigger] w1[t]).0 == x;
                    super::sorted_keys::lemma_as_map_index(w1, t);
                    assert(super::sorted_keys::has_key(self.windows@, x));
                }
            }
            assert forall|x: u64| #[trigger] n.windows.contains_key(x) implies n.windows[x] == expect.windows[x] by {
                assert(super::sorted_keys::has_key(kv, x));
                let a = choose|a: int| 0 <= a < kv.len() && (#[trigger] kv[a]).0 == x;
                super::sorted_keys::lemma_as_map_index(kv, a);
                assert(super::sorted_keys::has_key(w1, kv[a].0));
                assert(super::sorted_keys::as_map(w1)[kv[a].0] == kv[a].1);
                assert(super::sorted_keys::as_map(w1).contains_key(x));
                assert(super::sorted_keys::as_map(w1)[x] == o.windows[x]);
                assert(expect.windows.contains_key(x));
                assert(expect.windows[x] == o.windows[x]);
            }
            assert(n.windows =~= expect.windows);
            Self::lemma_bound_subset(tracked_roots(o), tracked_roots(n), self.max_tracked_roots);
            // the hints
            let h = hints@;
            assert forall|k: int| 0 <= k < k0 implies {
                &&& (#[trigger] h[k]).kind == HintKind::CoverageLost
                &&& o.lost.contains_key(h[k].root.0)
                &&& h[k].generation == o.lost[h[k].root.0]
            } by {
                super::sorted_keys::lemma_as_map_index(lv, k);
            }
            assert forall|k: int| k0 <= k < h.len() implies {
                &&& (#[trigger] h[k]).kind == HintKind::ReconciliationRequested
                &&& window_due(o, h[k].root.0, now)
                &&& h[k].generation == o.windows[h[k].root.0].generation
            } by {}
            assert forall|a: int, b: int| 0 <= a < b < k0 implies (#[trigger] h[a]).root.0 < (#[trigger] h[b]).root.0 by {
                assert(lv[a].0 < lv[b].0);
            }
            assert forall|r: u64| window_due(o, r, now) implies exists|i: int| k0 <= i < h.len() && (#[trigger] h[i]).root.0 == r by {
                assert(super::sorted_keys::as_map(w1).contains_key(r));
                let t = choose|t: int| 0 <= t < w1.len() && (#[trigger] w1[t]).0 == r;
                super::sorted_keys::lemma_as_map_index(w1, t);
            }
            assert(poll_hints_match(o, now, h));
        }
        hints
    }

    /// Number of currently open coalescing windows.
    fn open_windows(&self) -> (n: usize)
        requires
            self.well_formed(),
        ensures
            n == self@.windows.len(),
    {
        proof { self.lemma_counts(); }
        self.windows.len()
    }

    /// Count of signals rejected by the tracking bound.
    fn rejected_signals(&self) -> (n: u64)
        ensures
            n == self@.rejected,
    {
        self.rejected
    }
}

/// Collapses raw watcher activity into bounded, deterministic hints.
///
/// State is bounded: at most `max_tracked_roots` distinct roots hold an open
/// window or a pending coverage-loss mark. Signals beyond the bound are
/// rejected and counted; they are never queued.
pub struct Coalescer {
    core: CoalescerCore,
}

impl View for Coalescer {
    type V = CoalescerView;

    closed spec fn view(&self) -> CoalescerView {
        self.core@
    }
}

impl Coalescer {
    #[verifier::type_invariant]
    spec fn core_well_formed(self) -> bool {
        self.core.well_formed()
    }

    /// Moves the state out, leaving an empty placeholder behind.
    fn take_core(&mut self) -> (core: CoalescerCore)
        ensures
            core == old(self).core,
            core.well_formed(),
    {
        proof { use_type_invariant(&*self); }
        let mut core = CoalescerCore { window: 1, max_tracked_roots: 1, windows: Vec::new(), lost: Vec::new(), rejected: 0 };
        proof {
            assert(super::sorted_keys::as_map(core.windows@) =~= Map::<u64, WindowState>::empty());
            assert(super::sorted_keys::as_map(core.lost@) =~= Map::<u64, u64>::empty());
            assert(tracked_roots(core@) =~= Set::<u64>::empty());
        }
        std::mem::swap(&mut core, &mut self.core);
        core
    }

    /// Builds a coalescer; a zero window or a zero root budget is refused.
    pub fn new(config: CoalescerConfig) -> (r: Result<Self, InvalidCoalescerConfig>)
        ensures
            match r {
                Ok(c) => config.window > 0 && config.max_tracked_roots > 0 && c@.window == config.window
                    && c@.max_tracked_roots == config.max_tracked_roots && c@.windows == Map::<u64, WindowState>::empty()
                    && c@.lost == Map::<u64, u64>::empty() && c@.rejected == 0 && bounded(c@),
                Err(_) => config.window == 0 || config.max_tracked_roots == 0,
            },
    {
        match CoalescerCore::new(config) {
            Ok(core) => {
                proof { core.lemma_bounded(); }
                Ok(Coalescer { core })
            },
            Err(e) => Err(e),
        }
    }

    /// Records raw activity on `root` for `generation` at time `now`.
    ///
    /// The first activity opens a fixed window closing at `now + window`
    /// (saturating); activity inside an open window never extends it.
    /// Activity stamped with a different generation than the open window
    /// replaces it and drops the root's pending loss: a restart never
    /// inherits the previous watch's state. A pending loss of a dead
    /// generation is dropped once a fresh generation observes activity. A
    /// signal for an untracked root beyond the tracking budget is rejected
    /// and counted. Generations must not go backwards for a tracked root.
    pub fn record_activity(&mut self, root: RootId, generation: u64, now: u64)
        requires
            generation_fresh(old(self)@, root.0, generation),
        ensures
            final(self)@ == after_activity(old(self)@, root.0, generation, now),
            bounded(final(self)@),
    {
        proof { use_type_invariant(&*self); }
        let mut core = self.take_core();
        core.record_activity(root, generation, now);
        proof { core.lemma_bounded(); }
        self.core = core;
    }

    /// Marks that events were missed for `root`. Sticky until the next poll;
    /// a stale-generation loss for a root whose window belongs to a newer
    /// watch is ignored; a loss for an untracked root beyond the tracking
    /// budget is rejected and counted.
    pub fn record_coverage_lost(&mut self, root: RootId, generation: u64)
        ensures
            final(self)@ == after_coverage_lost(old(self)@, root.0, generation),
            bounded(final(self)@),
    {
        proof { use_type_invariant(&*self); }
        let mut core = self.take_core();
        core.record_coverage_lost(root, generation);
        proof { core.lemma_bounded(); }
        self.core = core;
    }

    /// Emits all currently due hints in deterministic order: coverage-loss
    /// hints first, then coalesced window hints, each ascending by root id.
    /// A coverage-loss hint subsumes any pending window for the same root.
    pub fn poll(&mut self, now: u64) -> (hints: Vec<WatchHint>)
        ensures
            poll_hints_match(old(self)@, now, hints@),
            final(self)@ == after_poll(old(self)@, now),
            bounded(final(self)@),
    {
        proof { use_type_invariant(&*self); }
        let mut core = self.take_core();
        let hints = core.poll(now);
        proof { core.lemma_bounded(); }
        self.core = core;
        hints
    }

    /// Number of currently open coalescing windows.
    pub fn open_windows(&self) -> (n: usize)
        ensures
            n == self@.windows.len(),
            n <= self@.max_tracked_roots,
    {
        proof {
            use_type_invariant(self);
            self.core.lemma_bounded();
        }
        self.core.open_windows()
    }

    /// Count of signals rejected by the tracking bound.
    pub fn rejected_signals(&self) -> (n: u64)
        ensures
            n == self@.rejected,
    {
        self.core.rejected_signals()
    }
}

impl WatcherPort for Coalescer {
    fn poll_hints(&mut self, now: u64) -> (hints: Vec<WatchHint>)
        ensures
            poll_hints_match(old(self)@, now, hints@),
            final(self)@ == after_poll(old(self)@, now),
            bounded(final(self)@),
    {
        self.poll(now)
    }

    /// A bare coalescer watches nothing, so it never ends.
    fn outcome(&mut self) -> (r: Option<WatchOutcome>)
        ensures
            r is None,
            final(self)@ == old(self)@,
    {
        None
    }
}

/// Activity inside an open window of the same generation changes nothing:
/// windows never extend, so a burst collapses into one hint.
pub proof fn law_activity_inside_open_window_is_absorbed(v: CoalescerView, root: u64, generation: u64, now: u64)
    requires
        v.windows.contains_key(root),
        v.windows[root].generation == generation,
    ensures
        after_activity(v, root, generation, now) == v,
{
}

/// A poll never reports a root twice: coverage-loss hints and window hints
/// are each ascending by root, and a loss subsumes the root's window.
pub proof fn law_one_hint_per_root_per_poll(v: CoalescerView, now: u64, hints: Seq<WatchHint>)
    requires
        poll_hints_match(v, now, hints),
    ensures
        forall|i: int, j: int| 0 <= i < j < hints.len() ==> hints[i].root != hints[j].root,
{
    let k = v.lost.len() as int;
    assert forall|i: int, j: int| 0 <= i < j < hints.len() implies hints[i].root != hints[j].root by {
        if j < k {
            assert(hints[i].root.0 < hints[j].root.0);
        } else if i >= k {
            assert(hints[i].root.0 < hints[j].root.0);
        } else {
            assert(v.lost.contains_key(hints[i].root.0));
            assert(window_due(v, hints[j].root.0, now));
        }
    }
}

/// After a poll no loss is pending and no window is due any more: every
/// due signal is delivered exactly once.
pub proof fn law_poll_drains_due_signals(v: CoalescerView, now: u64)
    ensures
        after_poll(v, now).lost == Map::<u64, u64>::empty(),
        forall|r: u64| !window_due(after_poll(v, now), r, now),
{
}

/// Coverage loss is never windowed: once accepted for a root, the next poll
/// at any time reports a coverage-loss hint for it with the loss's
/// generation, ahead of every window hint.
pub proof fn law_coverage_loss_reaches_the_next_poll(v: CoalescerView, root: u64, generation: u64, now: u64, hints: Seq<WatchHint>)
    requires
        bounded(v),
        after_coverage_lost(v, root, generation).lost.contains_key(root),
        poll_hints_match(after_coverage_lost(v, root, generation), now, hints),
    ensures
        exists|i: int| 0 <= i < after_coverage_lost(v, root, generation).lost.len() && hints[i].root.0 == root
            && hints[i].kind == HintKind::CoverageLost
            && hints[i].generation == after_coverage_lost(v, root, generation).lost[root],
{
    let w = after_coverage_lost(v, root, generation);
    let k = w.lost.len() as int;
    assert(w.lost.dom().finite()) by {
        vstd::set_lib::lemma_len_subset(v.lost.dom(), tracked_roots(v));
        assert(w.lost.dom().subset_of(v.lost.dom().insert(root)));
        vstd::set_lib::lemma_len_subset(w.lost.dom(), v.lost.dom().insert(root));
    }
    // The first k hints are pairwise distinct lost roots, hence all of them.
    let roots = Seq::new(k as nat, |i: int| hints[i].root.0);
    assert forall|i: int| 0 <= i < k implies w.lost.dom().contains(#[trigger] roots[i]) by {
        assert(hints[i].kind == HintKind::CoverageLost);
    }
    if !(exists|i: int| 0 <= i < k && hints[i].root.0 == root) {
        let s = roots.to_set();
        assert(s.subset_of(w.lost.dom().remove(root)));
        assert forall|a: int, b: int| 0 <= a < b < roots.len() implies roots[a] != roots[b] by {
            assert(hints[a].root.0 < hints[b].root.0);
        }
        roots.unique_seq_to_set();
        vstd::set_lib::lemma_len_subset(s, w.lost.dom().remove(root));
        assert(false);
    }
    let i = choose|i: int| 0 <= i < k && hints[i].root.0 == root;
    assert(hints[i].kind == HintKind::CoverageLost);
}

/// Every operation keeps window and loss generations in agreement.
proof fn lemma_generations_agree_kept(v: CoalescerView, root: u64, generation: u64, now: u64)
    requires
        generations_agree(v),
    ensures
        generations_agree(after_activity(v, root, generation, now)),
        generations_agree(after_coverage_lost(v, root, generation)),
        generations_agree(after_poll(v, now)),
{
    let a = after_activity(v, root, generation, now);
    assert forall|r: u64| #![trigger a.windows[r], a.lost[r]]
        a.windows.contains_key(r) && a.lost.contains_key(r) implies a.lost[r] == a.windows[r].generation by {
        if r != root {
            assert(v.windows.contains_key(r) && v.lost.contains_key(r));
            assert(v.lost[r] == v.windows[r].generation);
        }
    }
    let c = after_coverage_lost(v, root, generation);
    assert forall|r: u64| #![trigger c.windows[r], c.lost[r]]
        c.windows.contains_key(r) && c.lost.contains_key(r) implies c.lost[r] == c.windows[r].generation by {
        if r != root {
            assert(v.windows.contains_key(r) && v.lost.contains_key(r));
            assert(v.lost[r] == v.windows[r].generation);
        }
    }
}

/// A state whose tracked roots are among those of `v`, with the same
/// configuration, is within the bound.
proof fn lemma_bounded_below(v: CoalescerView, w: CoalescerView)
    requires
        within_budget(v),
        w.window == v.window,
        w.max_tracked_roots == v.max_tracked_roots,
        tracked_roots(w).subset_of(tracked_roots(v)),
    ensures
        within_budget(w),
{
    vstd::set_lib::lemma_len_subset(tracked_roots(w), tracked_roots(v));
    vstd::set_lib::lemma_len_subset(w.windows.dom(), tracked_roots(w));
    vstd::set_lib::lemma_len_subset(w.lost.dom(), tracked_roots(w));
}

/// A state that tracks one root more than `mid`, whose own count stays
/// under the budget, is within the bound.
proof fn lemma_bounded_with_one_more(mid: CoalescerView, w: CoalescerView, root: u64)
    requires
        mid.window > 0,
        mid.max_tracked_roots > 0,
        mid.windows.dom().finite(),
        mid.lost.dom().finite(),
        mid.windows.len() + mid.lost.len() < mid.max_tracked_roots,
        w.window == mid.window,
        w.max_tracked_roots == mid.max_tracked_roots,
        tracked_roots(w) == tracked_roots(mid).insert(root),
    ensures
        within_budget(w),
{
    vstd::set_lib::lemma_len_union(mid.windows.dom(), mid.lost.dom());
    vstd::set_lib::lemma_len_subset(w.windows.dom(), tracked_roots(w));
    vstd::set_lib::lemma_len_subset(w.lost.dom(), tracked_roots(w));
}

/// The tracking bound holds of every reachable state: from a bounded state
/// each operation leaves at most `max_tracked_roots` roots holding an open
/// window or a pending loss, however many signals arrive.
pub proof fn law_tracking_bound_is_kept(v: CoalescerView, root: u64, generation: u64, now: u64)
    requires
        bounded(v),
    ensures
        bounded(after_activity(v, root, generation, now)),
        bounded(after_coverage_lost(v, root, generation)),
        bounded(after_poll(v, now)),
{
    lemma_generations_agree_kept(v, root, generation, now);
    vstd::set_lib::lemma_len_subset(v.windows.dom(), tracked_roots(v));
    vstd::set_lib::lemma_len_subset(v.lost.dom(), tracked_roots(v));
    let a = after_activity(v, root, generation, now);
    if v.windows.contains_key(root) {
        assert(tracked_roots(a).subset_of(tracked_roots(v)));
        lemma_bounded_below(v, a);
    } else {
        let lost = if v.lost.contains_key(root) && v.lost[root] != generation { v.lost.remove(root) } else { v.lost };
        let mid = CoalescerView { lost, ..v };
        assert(tracked_roots(mid).subset_of(tracked_roots(v)));
        lemma_bounded_below(v, mid);
        if lost.contains_key(root) {
            assert(tracked_roots(a) =~= tracked_roots(mid));
            lemma_bounded_below(v, a);
        } else if v.windows.len() + lost.len() >= v.max_tracked_roots {
            assert(tracked_roots(a) =~= tracked_roots(mid));
            lemma_bounded_below(v, a);
        } else {
            assert(tracked_roots(a) =~= tracked_roots(mid).insert(root));
            lemma_bounded_with_one_more(mid, a, root);
        }
    }
    let c = after_coverage_lost(v, root, generation);
    if v.windows.contains_key(root) || v.lost.contains_key(root) {
        assert(tracked_roots(c).subset_of(tracked_roots(v)));
        lemma_bounded_below(v, c);
    } else if v.windows.len() + v.lost.len() >= v.max_tracked_roots {
        lemma_bounded_below(v, c);
    } else {
        assert(tracked_roots(c) =~= tracked_roots(v).insert(root));
        lemma_bounded_with_one_more(v, c, root);
    }
    let p = after_poll(v, now);
    assert(tracked_roots(p).subset_of(tracked_roots(v)));
    lemma_bounded_below(v, p);
}

/// The rejection counter counts exactly the signals for a root that holds
/// neither a window nor a pending loss (once a dead-generation loss is
/// dropped) while the tracking budget is spent: such a signal raises it by
/// one, stopping at `u64::MAX`, and opens nothing. Every other signal, and
/// every poll, leaves the counter as it was.
pub proof fn law_rejections_are_counted_exactly(v: CoalescerView, root: u64, generation: u64, now: u64)
    ensures
        ({
            let lost = if v.lost.contains_key(root) && v.lost[root] != generation { v.lost.remove(root) } else { v.lost };
            let refused = !v.windows.contains_key(root) && !lost.contains_key(root)
                && v.windows.len() + lost.len() >= v.max_tracked_roots;
            &&& after_activity(v, root, generation, now).rejected == (if refused { counted(v.rejected) } else { v.rejected })
            &&& refused ==> after_activity(v, root, generation, now) == CoalescerView { lost, rejected: counted(v.rejected), ..v }
        }),
        ({
            let refused = !v.windows.contains_key(root) && !v.lost.contains_key(root)
                && v.windows.len() + v.lost.len() >= v.max_tracked_roots;
            &&& after_coverage_lost(v, root, generation).rejected == (if refused { counted(v.rejected) } else { v.rejected })
            &&& refused ==> after_coverage_lost(v, root, generation) == CoalescerView { rejected: counted(v.rejected), ..v }
        }),
        after_poll(v, now).rejected == v.rejected,
        v.rejected < u64::MAX ==> counted(v.rejected) == v.rejected + 1,
{
}

/// One call on a coalescer, as the spacing law replays them.
#[derive(Clone, Copy, Debug, PartialEq, Eq, Structural)]
pub enum CoalescerCall {
    Activity { root: u64, generation: u64, now: u64 },
    CoverageLost { root: u64, generation: u64 },
    Poll { now: u64 },
}

/// The state after one call.
pub open spec fn after_call(v: CoalescerView, call: CoalescerCall) -> CoalescerView {
    match call {
        CoalescerCall::Activity { root, generation, now } => after_activity(v, root, generation, now),
        CoalescerCall::CoverageLost { root, generation } => after_coverage_lost(v, root, generation),
        CoalescerCall::Poll { now } => after_poll(v, now),
    }
}

/// The state after the calls, in order.
pub open spec fn replay(v: CoalescerView, calls: Seq<CoalescerCall>) -> CoalescerView
    decreases calls.len(),
{
    if calls.len() == 0 {
        v
    } else {
        after_call(replay(v, calls.drop_last()), calls.last())
    }
}

/// The call is stamped no earlier than `since`, and an activity's window
/// end does not saturate.
pub open spec fn call_not_before(call: CoalescerCall, since: u64, window: u64) -> bool {
    match call {
        CoalescerCall::Activity { now, .. } => since <= now && now + window <= u64::MAX,
        CoalescerCall::CoverageLost { .. } => true,
        CoalescerCall::Poll { now } => since <= now,
    }
}

/// No window of `root` closes before `since` plus the window length.
pub open spec fn window_fenced(v: CoalescerView, root: u64, since: u64) -> bool {
    v.windows.contains_key(root) ==> v.windows[root].closes_at >= since + v.window
}

proof fn lemma_fence_kept(v: CoalescerView, root: u64, since: u64, calls: Seq<CoalescerCall>)
    requires
        window_fenced(v, root, since),
        forall|k: int| 0 <= k < calls.len() ==> call_not_before(#[trigger] calls[k], since, v.window),
    ensures
        window_fenced(replay(v, calls), root, since),
        replay(v, calls).window == v.window,
    decreases calls.len(),
{
    if calls.len() > 0 {
        let prefix = calls.drop_last();
        assert forall|k: int| 0 <= k < prefix.len() implies call_not_before(#[trigger] prefix[k], since, v.window) by {
            assert(prefix[k] == calls[k]);
        }
        lemma_fence_kept(v, root, since, prefix);
        assert(call_not_before(calls[calls.len() - 1], since, v.window));
    }
}

/// At most one reconciliation hint per root per window, however sustained
/// the activity: when a poll at `t1` answers a reconciliation hint for a
/// root, and later calls stamped no earlier than `t1` lead to a poll at `t2`
/// that answers one for the same root again, then `t2` is at least one
/// window after `t1`.
pub proof fn law_at_most_one_reconciliation_hint_per_window(
    v: CoalescerView,
    t1: u64,
    first: Seq<WatchHint>,
    i: int,
    calls: Seq<CoalescerCall>,
    t2: u64,
    second: Seq<WatchHint>,
    j: int,
)
    requires
        poll_hints_match(v, t1, first),
        0 <= i < first.len(),
        first[i].kind == HintKind::ReconciliationRequested,
        forall|k: int| 0 <= k < calls.len() ==> call_not_before(#[trigger] calls[k], t1, v.window),
        poll_hints_match(replay(after_poll(v, t1), calls), t2, second),
        0 <= j < second.len(),
        second[j].kind == HintKind::ReconciliationRequested,
        second[j].root == first[i].root,
    ensures
        t2 >= t1 + v.window,
{
    let r = first[i].root.0;
    assert(window_due(v, r, t1));
    assert(window_fenced(after_poll(v, t1), r, t1));
    lemma_fence_kept(after_poll(v, t1), r, t1, calls);
    let w = replay(after_poll(v, t1), calls);
    assert(window_due(w, second[j].root.0, t2));
}

pub open spec fn ascending(a: Seq<u64>) -> bool {
    forall|i: int, j: int| 0 <= i < j < a.len() ==> a[i] < a[j]
}

proof fn lemma_ascending_same_members_equal(a: Seq<u64>, b: Seq<u64>)
    requires
        ascending(a),
        ascending(b),
        forall|x: u64| a.contains(x) <==> b.contains(x),
    ensures
        a == b,
    decreases a.len(),
{
    if a.len() == 0 {
        if b.len() > 0 {
            assert(b.contains(b[0]));
        }
        assert(a =~= b);
    } else if b.len() == 0 {
        assert(a.contains(a[0]));
    } else {
        assert(b.contains(a[0]));
        assert(a.contains(b[0]));
        let i = choose|i: int| 0 <= i < a.len() && a[i] == b[0];
        let j = choose|j: int| 0 <= j < b.len() && b[j] == a[0];
        assert(a[0] == b[0]) by {
            if i > 0 {
                assert(a[0] < a[i]);
            }
            if j > 0 {
                assert(b[0] < b[j]);
            }
        }
        let a1 = a.drop_first();
        let b1 = b.drop_first();
        assert forall|x: u64| a1.contains(x) <==> b1.contains(x) by {
            if a1.contains(x) {
                let p = choose|p: int| 0 <= p < a1.len() && a1[p] == x;
                assert(a[p + 1] == x);
                assert(a[0] < a[p + 1]);
                assert(b.contains(x));
                let q = choose|q: int| 0 <= q < b.len() && b[q] == x;
                assert(q != 0);
                assert(b1[q - 1] == x);
            }
            if b1.contains(x) {
                let p = choose|p: int| 0 <= p < b1.len() && b1[p] == x;
                assert(b[p + 1] == x);
                assert(b[0] < b[p + 1]);
                assert(a.contains(x));
                let q = choose|q: int| 0 <= q < a.len() && a[q] == x;
                assert(q != 0);
                assert(a1[q - 1] == x);
            }
        }
        lemma_ascending_same_members_equal(a1, b1);
        assert(a =~= seq![a[0]] + a1);
        assert(b =~= seq![b[0]] + b1);
    }
}

/// The roots of `hints[from..to]`.
pub open spec fn hint_roots(hints: Seq<WatchHint>, from: int, to: int) -> Seq<u64> {
    hints.subrange(from, to).map_values(|h: WatchHint| h.root.0)
}

proof fn lemma_loss_prefix_covers_losses(v: CoalescerView, now: u64, hints: Seq<WatchHint>)
    requires
        bounded(v),
        poll_hints_match(v, now, hints),
    ensures
        forall|x: u64| hint_roots(hints, 0, v.lost.len() as int).contains(x) <==> v.lost.contains_key(x),
        ascending(hint_roots(hints, 0, v.lost.len() as int)),
{
    let k = v.lost.len() as int;
    let roots = hint_roots(hints, 0, k);
    vstd::set_lib::lemma_len_subset(v.lost.dom(), tracked_roots(v));
    assert forall|i: int, j: int| 0 <= i < j < roots.len() implies roots[i] < roots[j] by {
        assert(hints[i].root.0 < hints[j].root.0);
    }
    assert forall|x: u64| roots.contains(x) <==> v.lost.contains_key(x) by {
        if roots.contains(x) {
            let i = choose|i: int| 0 <= i < roots.len() && roots[i] == x;
            assert(hints[i].kind == HintKind::CoverageLost);
        }
        if v.lost.contains_key(x) && !roots.contains(x) {
            let s = roots.to_set();
            assert(s.subset_of(v.lost.dom().remove(x))) by {
                assert forall|y: u64| s.contains(y) implies v.lost.dom().remove(x).contains(y) by {
                    let i = choose|i: int| 0 <= i < roots.len() && roots[i] == y;
                    assert(hints[i].kind == HintKind::CoverageLost);
                }
            }
            assert forall|a: int, b: int| 0 <= a < b < roots.len() implies roots[a] != roots[b] by {
                assert(roots[a] < roots[b]);
            }
            roots.unique_seq_to_set();
            vstd::set_lib::lemma_len_subset(s, v.lost.dom().remove(x));
            assert(false);
        }
    }
}

proof fn lemma_window_suffix_covers_due(v: CoalescerView, now: u64, hints: Seq<WatchHint>)
    requires
        poll_hints_match(v, now, hints),
    ensures
        forall|x: u64| hint_roots(hints, v.lost.len() as int, hints.len() as int).contains(x) <==> window_due(v, x, now),
        ascending(hint_roots(hints, v.lost.len() as int, hints.len() as int)),
{
    let k = v.lost.len() as int;
    let roots = hint_roots(hints, k, hints.len() as int);
    assert forall|i: int, j: int| 0 <= i < j < roots.len() implies roots[i] < roots[j] by {
        assert(hints[k + i].root.0 < hints[k + j].root.0);
    }
    assert forall|x: u64| roots.contains(x) <==> window_due(v, x, now) by {
        if roots.contains(x) {
            let i = choose|i: int| 0 <= i < roots.len() && roots[i] == x;
            assert(hints[k + i].kind == HintKind::ReconciliationRequested);
        }
        if window_due(v, x, now) {
            let i = choose|i: int| k <= i < hints.len() && (#[trigger] hints[i]).root.0 == x;
            assert(roots[i - k] == x);
        }
    }
}

/// A poll's answer is determined by the state and the time: identical
/// signal scripts produce identical hint sequences.
pub proof fn law_poll_is_deterministic(v: CoalescerView, now: u64, h1: Seq<WatchHint>, h2: Seq<WatchHint>)
    requires
        bounded(v),
        poll_hints_match(v, now, h1),
        poll_hints_match(v, now, h2),
    ensures
        h1 == h2,
{
    let k = v.lost.len() as int;
    lemma_loss_prefix_covers_losses(v, now, h1);
    lemma_loss_prefix_covers_losses(v, now, h2);
    lemma_window_suffix_covers_due(v, now, h1);
    lemma_window_suffix_covers_due(v, now, h2);
    lemma_ascending_same_members_equal(hint_roots(h1, 0, k), hint_roots(h2, 0, k));
    lemma_ascending_same_members_equal(hint_roots(h1, k, h1.len() as int), hint_roots(h2, k, h2.len() as int));
    assert(h1.len() == h2.len()) by {
        assert(hint_roots(h1, k, h1.len() as int).len() == hint_roots(h2, k, h2.len() as int).len());
    }
    assert forall|i: int| 0 <= i < h1.len() implies h1[i] == h2[i] by {
        if i < k {
            assert(hint_roots(h1, 0, k)[i] == hint_roots(h2, 0, k)[i]);
        } else {
            assert(hint_roots(h1, k, h1.len() as int)[i - k] == hint_roots(h2, k, h2.len() as int)[i - k]);
        }
    }
    assert(h1 =~= h2);
}

} // verus!
