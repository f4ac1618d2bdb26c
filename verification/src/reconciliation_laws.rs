//! Laws of `reconcile`: an accepted plan is determined by its inputs alone,
//! it does not depend on the order in which the observations arrive,
//! reconciling a plan's own locations against the same observations
//! proposes no change, and a content change is reported whether or not the
//! file was also restored.
use vstd::prelude::*;

use crate::reconciliation::{ChangeView, Identity, LocationView, ObservationView, Outcome, PlanView, MAX_RECORDS, MAX_TOTAL_PATH_BYTES};
use crate::reconciliation as rc;

verus! {

proof fn lemma_first_none_all(paths: Seq<Seq<char>>, split: int, k: int)
    requires
        0 <= k,
        rc::first_entry_rejection(paths, split, k) is None,
    ensures
        forall|m: int| k <= m < paths.len() ==> #[trigger] rc::entry_rejection(paths, split, m) is None,
    decreases paths.len() - k,
{
    if k < paths.len() {
        lemma_first_none_all(paths, split, k + 1);
    }
}

proof fn lemma_all_none_first(paths: Seq<Seq<char>>, split: int, k: int)
    requires
        0 <= k,
        forall|m: int| k <= m < paths.len() ==> #[trigger] rc::entry_rejection(paths, split, m) is None,
    ensures
        rc::first_entry_rejection(paths, split, k) is None,
    decreases paths.len() - k,
{
    if k < paths.len() {
        lemma_all_none_first(paths, split, k + 1);
    }
}

/// Two strictly sorted sequences with the same elements are equal.
proof fn lemma_sorted_paths_unique(a: Seq<Seq<char>>, b: Seq<Seq<char>>)
    requires
        rc::strictly_sorted(a),
        rc::strictly_sorted(b),
        forall|p: Seq<char>| a.contains(p) <==> b.contains(p),
    ensures
        a == b,
    decreases a.len(),
{
    if a.len() == 0 {
        if b.len() > 0 {
            assert(b.contains(b[0]));
        }
        assert(a =~= b);
    } else if b.len() == 0 {
        assert(a.contains(a[0]));
    } else {
        // the first elements are both the least element
        assert(a.contains(b[0]));
        assert(b.contains(a[0]));
        let i = choose|i: int| 0 <= i < a.len() && a[i] == b[0];
        let j = choose|j: int| 0 <= j < b.len() && b[j] == a[0];
        if i > 0 {
            assert(crate::text::seq_lt(a[0], a[i]));
            if j > 0 {
                assert(crate::text::seq_lt(b[0], b[j]));
                crate::text::lemma_seq_lt_asymmetric(a[0], b[0]);
            } else {
                crate::text::lemma_seq_lt_irreflexive(a[0]);
            }
        }
        if j > 0 && i == 0 {
            assert(crate::text::seq_lt(b[0], b[j]));
            crate::text::lemma_seq_lt_irreflexive(b[0]);
        }
        assert(a[0] == b[0]);
        let ra = a.drop_first();
        let rb = b.drop_first();
        assert forall|p: Seq<char>| ra.contains(p) <==> rb.contains(p) by {
            if ra.contains(p) {
                let x = choose|x: int| 0 <= x < ra.len() && ra[x] == p;
                assert(a[x + 1] == p);
                assert(crate::text::seq_lt(a[0], a[x + 1]));
                assert(b.contains(p));
                let y = choose|y: int| 0 <= y < b.len() && b[y] == p;
                if y == 0 {
                    crate::text::lemma_seq_lt_irreflexive(p);
                }
                assert(rb[y - 1] == p);
            }
            if rb.contains(p) {
                let y = choose|y: int| 0 <= y < rb.len() && rb[y] == p;
                assert(b[y + 1] == p);
                assert(crate::text::seq_lt(b[0], b[y + 1]));
                assert(a.contains(p));
                let x = choose|x: int| 0 <= x < a.len() && a[x] == p;
                if x == 0 {
                    crate::text::lemma_seq_lt_irreflexive(p);
                }
                assert(ra[x - 1] == p);
            }
        }
        lemma_sorted_paths_unique(ra, rb);
        assert(a =~= seq![a[0]] + ra);
        assert(b =~= seq![b[0]] + rb);
    }
}

/// Two strictly ascending identity sequences with the same elements are equal.
proof fn lemma_sorted_ids_unique(a: Seq<Identity>, b: Seq<Identity>)
    requires
        rc::identities_sorted(a),
        rc::identities_sorted(b),
        forall|x: Identity| a.contains(x) <==> b.contains(x),
    ensures
        a == b,
    decreases a.len(),
{
    if a.len() == 0 {
        if b.len() > 0 {
            assert(b.contains(b[0]));
        }
        assert(a =~= b);
    } else if b.len() == 0 {
        assert(a.contains(a[0]));
    } else {
        assert(a.contains(b[0]));
        assert(b.contains(a[0]));
        let i = choose|i: int| 0 <= i < a.len() && a[i] == b[0];
        let j = choose|j: int| 0 <= j < b.len() && b[j] == a[0];
        if i > 0 && j > 0 {
            assert(rc::identity_lt(a[0], a[i]));
            assert(rc::identity_lt(b[0], b[j]));
        }
        if i > 0 && j == 0 {
            assert(rc::identity_lt(a[0], a[i]));
        }
        if j > 0 && i == 0 {
            assert(rc::identity_lt(b[0], b[j]));
        }
        assert(a[0] == b[0]);
        let ra = a.drop_first();
        let rb = b.drop_first();
        assert forall|x: Identity| ra.contains(x) <==> rb.contains(x) by {
            if ra.contains(x) {
                let m = choose|m: int| 0 <= m < ra.len() && ra[m] == x;
                assert(a[m + 1] == x);
                assert(rc::identity_lt(a[0], a[m + 1]));
                assert(b.contains(x));
                let y = choose|y: int| 0 <= y < b.len() && b[y] == x;
                assert(y != 0);
                assert(rb[y - 1] == x);
            }
            if rb.contains(x) {
                let m = choose|m: int| 0 <= m < rb.len() && rb[m] == x;
                assert(b[m + 1] == x);
                assert(rc::identity_lt(b[0], b[m + 1]));
                assert(a.contains(x));
                let y = choose|y: int| 0 <= y < a.len() && a[y] == x;
                assert(y != 0);
                assert(ra[y - 1] == x);
            }
        }
        lemma_sorted_ids_unique(ra, rb);
        assert(a =~= seq![a[0]] + ra);
        assert(b =~= seq![b[0]] + rb);
    }
}

proof fn lemma_rename_entry_unique(prev: Seq<LocationView>, obs: Seq<ObservationView>, id: Identity, c1: ChangeView, c2: ChangeView)
    requires
        rc::rename_entry(prev, obs, id, c1),
        rc::rename_entry(prev, obs, id, c2),
    ensures
        c1 == c2,
{
    let (i1, j1) = choose|i: int, j: int| rc::rename_witness(prev, obs, id, i, j)
        && c1 == (ChangeView::RenameEvidence { from: prev[i].path, to: obs[j].path });
    let (i2, j2) = choose|i: int, j: int| rc::rename_witness(prev, obs, id, i, j)
        && c2 == (ChangeView::RenameEvidence { from: prev[i].path, to: obs[j].path });
    assert(rc::live_alias(prev, id, i2));
    assert(rc::observed_alias(obs, id, j2));
}

/// An accepted plan is determined by the inputs: any two plans that both
/// meet `reconcile`'s contract for the same inputs are equal.
pub proof fn law_plan_determined(prev: Seq<LocationView>, obs: Seq<ObservationView>, p1: PlanView, p2: PlanView)
    requires
        rc::plan_matches(prev, obs, p1),
        rc::plan_matches(prev, obs, p2),
    ensures
        p1.locations == p2.locations,
        p1.changes == p2.changes,
{
    let paths1 = p1.locations.map_values(|l: LocationView| l.path);
    let paths2 = p2.locations.map_values(|l: LocationView| l.path);
    assert forall|p: Seq<char>| paths1.contains(p) <==> paths2.contains(p) by {}
    lemma_sorted_paths_unique(paths1, paths2);
    assert(p1.locations.len() == p2.locations.len());
    assert forall|k: int| 0 <= k < p1.locations.len() implies p1.locations[k] == p2.locations[k] by {
        assert(p1.locations[k] == rc::expected_location(prev, obs, paths1[k]));
        assert(p2.locations[k] == rc::expected_location(prev, obs, paths2[k]));
    }
    assert(p1.locations =~= p2.locations);
    let per = rc::changes_for_paths(prev, obs, paths1);
    let n = per.len() as int;
    let r1 = p1.changes.skip(n);
    let r2 = p2.changes.skip(n);
    let ids1 = choose|ids: Seq<Identity>| rc::renames_for(prev, obs, ids, #[trigger] p1.changes.skip(n));
    let ids2 = choose|ids: Seq<Identity>| rc::renames_for(prev, obs, ids, #[trigger] p2.changes.skip(n));
    assert(rc::renames_for(prev, obs, ids1, r1));
    assert(rc::renames_for(prev, obs, ids2, r2));
    assert forall|x: Identity| ids1.contains(x) <==> ids2.contains(x) by {}
    lemma_sorted_ids_unique(ids1, ids2);
    assert forall|k: int| 0 <= k < r1.len() implies r1[k] == r2[k] by {
        assert(rc::rename_entry(prev, obs, ids1[k], r1[k]));
        assert(rc::rename_entry(prev, obs, ids2[k], r2[k]));
        lemma_rename_entry_unique(prev, obs, ids1[k], r1[k], r2[k]);
    }
    assert(r1 =~= r2);
    assert(p1.changes =~= p1.changes.take(n) + r1);
    assert(p2.changes =~= p2.changes.take(n) + r2);
}


proof fn lemma_bytes_monotone(paths: Seq<Seq<char>>, a: int, b: int)
    requires
        0 <= a <= b,
    ensures
        rc::bytes_through(paths, a) <= rc::bytes_through(paths, b),
    decreases b - a,
{
    if a < b {
        lemma_bytes_monotone(paths, a, b - 1);
    }
}

proof fn lemma_no_changes(prev: Seq<LocationView>, obs: Seq<ObservationView>, paths: Seq<Seq<char>>)
    requires
        forall|k: int| 0 <= k < paths.len() ==> #[trigger] rc::path_changes(prev, obs, paths[k]).len() == 0,
    ensures
        rc::changes_for_paths(prev, obs, paths).len() == 0,
    decreases paths.len(),
{
    if paths.len() > 0 {
        let init = paths.drop_last();
        assert forall|k: int| 0 <= k < init.len() implies #[trigger] rc::path_changes(prev, obs, init[k]).len() == 0 by {
            assert(init[k] == paths[k]);
        }
        lemma_no_changes(prev, obs, init);
        assert(rc::path_changes(prev, obs, paths[paths.len() - 1]).len() == 0);
    }
}

/// Reconciling a plan's own locations against the same observations is a
/// fixed point: the inputs are accepted, and the answer keeps every location
/// and proposes no change at all (no addition, modification, replacement,
/// absence, restoration or rename). The bounds apply to the new combined
/// input, so they are required of it.
pub proof fn law_reconcile_idempotent(prev: Seq<LocationView>, obs: Seq<ObservationView>, plan: PlanView)
    requires
        rc::rejection(prev, obs, Outcome::Complete) is None,
        rc::plan_matches(prev, obs, plan),
        plan.locations.len() + obs.len() <= MAX_RECORDS,
        rc::bytes_through(rc::all_paths(plan.locations, obs), (plan.locations.len() + obs.len()) as int) <= MAX_TOTAL_PATH_BYTES,
    ensures
        rc::rejection(plan.locations, obs, Outcome::Complete) is None,
        rc::plan_matches(plan.locations, obs, PlanView { locations: plan.locations, changes: Seq::empty() }),
{
    let loc = plan.locations;
    let paths = loc.map_values(|l: LocationView| l.path);
    let old_all = rc::all_paths(prev, obs);
    let new_all = rc::all_paths(loc, obs);
    let split = prev.len() as int;
    let nsplit = loc.len() as int;
    lemma_first_none_all(old_all, split, 0);
    // every known path came from an accepted entry
    assert forall|k: int| 0 <= k < loc.len() implies rc::path_shape_valid(#[trigger] loc[k].path)
        && rc::byte_len(loc[k].path) <= crate::reconciliation::MAX_PATH_BYTES by {
        assert(paths[k] == loc[k].path);
        assert(paths.contains(loc[k].path));
        if rc::prev_has(prev, loc[k].path) {
            let i = choose|i: int| 0 <= i < prev.len() && #[trigger] prev[i].path == loc[k].path;
            assert(old_all[i] == prev[i].path);
            assert(rc::entry_rejection(old_all, split, i) is None);
        } else {
            let j = choose|j: int| 0 <= j < obs.len() && #[trigger] obs[j].path == loc[k].path;
            assert(old_all[split + j] == obs[j].path);
            assert(rc::entry_rejection(old_all, split, split + j) is None);
        }
    }
    assert forall|m: int| 0 <= m < new_all.len() implies #[trigger] rc::entry_rejection(new_all, nsplit, m) is None by {
        lemma_bytes_monotone(new_all, m + 1, new_all.len() as int);
        if m < nsplit {
            assert(new_all[m] == loc[m].path);
            assert forall|j: int| 0 <= j < m && rc::same_list(nsplit, j, m) implies new_all[j] != new_all[m] by {
                assert(new_all[j] == loc[j].path);
                assert(paths[j] == loc[j].path && paths[m] == loc[m].path);
                assert(crate::text::seq_lt(paths[j], paths[m]));
                crate::text::lemma_seq_lt_irreflexive(paths[j]);
            }
        } else {
            assert(new_all[m] == obs[m - nsplit].path);
            assert(old_all[split + m - nsplit] == obs[m - nsplit].path);
            assert(rc::entry_rejection(old_all, split, split + m - nsplit) is None);
            assert forall|j: int| 0 <= j < m && rc::same_list(nsplit, j, m) implies new_all[j] != new_all[m] by {
                assert(new_all[j] == obs[j - nsplit].path);
                assert(old_all[split + j - nsplit] == obs[j - nsplit].path);
                assert(rc::same_list(split, split + j - nsplit, split + m - nsplit));
            }
        }
    }
    lemma_all_none_first(new_all, nsplit, 0);
    // the retained locations are keyed by distinct paths
    assert forall|a: int, b: int| 0 <= a < b < loc.len() implies loc[a].path != loc[b].path by {
        assert(paths[a] == loc[a].path && paths[b] == loc[b].path);
        assert(crate::text::seq_lt(paths[a], paths[b]));
        crate::text::lemma_seq_lt_irreflexive(paths[a]);
    }
    assert forall|k: int| 0 <= k < loc.len() implies rc::prev_at(loc, #[trigger] loc[k].path) == loc[k] by {
        let p = loc[k].path;
        assert(loc[k].path == p);
        let x = choose|x: int| 0 <= x < loc.len() && #[trigger] loc[x].path == p;
        if x < k {
            assert(loc[x].path != loc[k].path);
        } else if x > k {
            assert(loc[k].path != loc[x].path);
        }
    }
    let p0 = PlanView { locations: loc, changes: Seq::empty() };
    assert(p0.locations.map_values(|l: LocationView| l.path) == paths);
    assert forall|p: Seq<char>| paths.contains(p) <==> (rc::prev_has(loc, p) || rc::obs_has(obs, p)) by {
        if paths.contains(p) {
            let k = choose|k: int| 0 <= k < paths.len() && paths[k] == p;
            assert(loc[k].path == p);
        }
        if rc::prev_has(loc, p) {
            let k = choose|k: int| 0 <= k < loc.len() && #[trigger] loc[k].path == p;
            assert(paths[k] == p);
        }
    }
    assert forall|k: int| 0 <= k < loc.len() implies #[trigger] loc[k] == rc::expected_location(loc, obs, paths[k]) by {
        assert(paths[k] == loc[k].path);
        assert(loc[k] == rc::expected_location(prev, obs, paths[k]));
        assert(rc::prev_at(loc, loc[k].path) == loc[k]);
    }
    assert forall|k: int| 0 <= k < paths.len() implies #[trigger] rc::path_changes(loc, obs, paths[k]).len() == 0 by {
        let p = paths[k];
        assert(loc[k].path == p);
        assert(loc[k] == rc::expected_location(prev, obs, p));
        assert(rc::prev_has(loc, p));
        assert(rc::prev_at(loc, p) == loc[k]);
        if rc::obs_has(obs, p) {
            assert(rc::path_changes(loc, obs, p) =~= Seq::<ChangeView>::empty());
        }
    }
    lemma_no_changes(loc, obs, paths);
    assert forall|id: Identity| !rc::rename_qualifies(loc, obs, id) by {
        if rc::rename_qualifies(loc, obs, id) {
            let (i, j) = choose|i: int, j: int| rc::rename_witness(loc, obs, id, i, j);
            let p = loc[i].path;
            assert(loc[i] == rc::expected_location(prev, obs, paths[i]));
            assert(paths[i] == p);
            assert(rc::obs_has(obs, p));
            let x = choose|x: int| 0 <= x < obs.len() && #[trigger] obs[x].path == p;
            assert(rc::observed_alias(obs, id, x));
            assert(x == j);
        }
    }
    assert(rc::renames_for(loc, obs, Seq::<Identity>::empty(), p0.changes.skip(0)));
    assert(p0.changes.take(0) =~= rc::changes_for_paths(loc, obs, paths));
}

/// `perm` rearranges `s` into `t`, and `inv` undoes it: `t` holds the
/// elements of `s` in another order.
pub open spec fn reorders<A>(s: Seq<A>, t: Seq<A>, perm: Seq<int>, inv: Seq<int>) -> bool {
    &&& t.len() == s.len()
    &&& perm.len() == s.len()
    &&& inv.len() == s.len()
    &&& forall|k: int| 0 <= k < s.len() ==> 0 <= #[trigger] perm[k] < s.len() && inv[perm[k]] == k && t[k] == s[perm[k]]
    &&& forall|j: int| 0 <= j < s.len() ==> 0 <= #[trigger] inv[j] < s.len() && perm[inv[j]] == j
}

proof fn lemma_bytes_prefix(s: Seq<Seq<char>>, t: Seq<Seq<char>>, k: int)
    requires
        0 <= k <= s.len(),
        k <= t.len(),
        forall|i: int| 0 <= i < k ==> s[i] == t[i],
    ensures
        rc::bytes_through(s, k) == rc::bytes_through(t, k),
    decreases k,
{
    if k > 0 {
        lemma_bytes_prefix(s, t, k - 1);
    }
}

proof fn lemma_bytes_append(a: Seq<Seq<char>>, b: Seq<Seq<char>>)
    ensures
        rc::bytes_through(a + b, (a.len() + b.len()) as int) == rc::bytes_through(a, a.len() as int) + rc::bytes_through(b, b.len() as int),
    decreases b.len(),
{
    if b.len() == 0 {
        lemma_bytes_prefix(a + b, a, a.len() as int);
    } else {
        let b0 = b.drop_last();
        lemma_bytes_append(a, b0);
        lemma_bytes_prefix(a + b, a + b0, (a.len() + b0.len()) as int);
        lemma_bytes_prefix(b, b0, b0.len() as int);
        assert((a + b)[a.len() + b.len() - 1] == b[b.len() - 1]);
    }
}

/// The total byte length of a sequence of paths does not depend on their order.
proof fn lemma_bytes_reorder(s: Seq<Seq<char>>, t: Seq<Seq<char>>, perm: Seq<int>, inv: Seq<int>)
    requires
        reorders(s, t, perm, inv),
    ensures
        rc::bytes_through(t, t.len() as int) == rc::bytes_through(s, s.len() as int),
    decreases s.len(),
{
    let n = s.len() as int;
    if n > 0 {
        let p = perm[n - 1];
        assert(inv[p] == n - 1);
        let s2 = s.remove(p);
        let t2 = t.drop_last();
        let perm2 = Seq::new((n - 1) as nat, |k: int| if perm[k] < p { perm[k] } else { perm[k] - 1 });
        let inv2 = Seq::new((n - 1) as nat, |j: int| if j < p { inv[j] } else { inv[j + 1] });
        assert forall|k: int| 0 <= k < s2.len() implies 0 <= #[trigger] perm2[k] < s2.len() && inv2[perm2[k]] == k && t2[k] == s2[perm2[k]] by {
            assert(0 <= perm[k] < n && inv[perm[k]] == k);
            assert(perm[k] != p);
        }
        assert forall|j: int| 0 <= j < s2.len() implies 0 <= #[trigger] inv2[j] < s2.len() && perm2[inv2[j]] == j by {
            let jj = if j < p { j } else { j + 1 };
            assert(0 <= inv[jj] < n && perm[inv[jj]] == jj);
            assert(inv[jj] != n - 1);
        }
        lemma_bytes_reorder(s2, t2, perm2, inv2);
        // the last element of `t` is `s[p]`
        lemma_bytes_prefix(t, t2, n - 1);
        let front = s.take(p);
        let back = s.skip(p + 1);
        assert(s2 =~= front + back);
        lemma_bytes_append(front, back);
        assert(s =~= front + (seq![s[p]] + back));
        lemma_bytes_append(front, seq![s[p]] + back);
        lemma_bytes_append(seq![s[p]], back);
        assert(rc::bytes_through(seq![s[p]], 1) == rc::byte_len(s[p])) by {
            reveal_with_fuel(rc::bytes_through, 2);
        }
    }
}

proof fn lemma_changes_for_paths_agree(prev: Seq<LocationView>, obs: Seq<ObservationView>, obs2: Seq<ObservationView>, paths: Seq<Seq<char>>)
    requires
        forall|p: Seq<char>| #[trigger] rc::path_changes(prev, obs2, p) == rc::path_changes(prev, obs, p),
    ensures
        rc::changes_for_paths(prev, obs2, paths) == rc::changes_for_paths(prev, obs, paths),
    decreases paths.len(),
{
    if paths.len() > 0 {
        lemma_changes_for_paths_agree(prev, obs, obs2, paths.drop_last());
        assert(rc::path_changes(prev, obs2, paths.last()) == rc::path_changes(prev, obs, paths.last()));
    }
}

/// Reconciliation does not depend on the order of the observations: when a
/// run is accepted, the same observations in any other order are accepted
/// too, and the plan for the first order is the plan for the other.
pub proof fn law_reconcile_order_independent(
    prev: Seq<LocationView>,
    obs: Seq<ObservationView>,
    obs2: Seq<ObservationView>,
    perm: Seq<int>,
    inv: Seq<int>,
    plan: PlanView,
)
    requires
        reorders(obs, obs2, perm, inv),
        rc::rejection(prev, obs, Outcome::Complete) is None,
        rc::plan_matches(prev, obs, plan),
    ensures
        rc::rejection(prev, obs2, Outcome::Complete) is None,
        rc::plan_matches(prev, obs2, plan),
{
    let n = obs.len() as int;
    let split = prev.len() as int;
    let all = rc::all_paths(prev, obs);
    let all2 = rc::all_paths(prev, obs2);
    let pp = prev.map_values(|l: LocationView| l.path);
    let op = obs.map_values(|o: ObservationView| o.path);
    let op2 = obs2.map_values(|o: ObservationView| o.path);
    lemma_first_none_all(all, split, 0);
    // the observed paths are distinct
    assert forall|a: int, b: int| 0 <= a < b < n implies obs[a].path != obs[b].path by {
        assert(all[split + a] == obs[a].path && all[split + b] == obs[b].path);
        assert(rc::entry_rejection(all, split, split + b) is None);
        assert(rc::same_list(split, split + a, split + b));
    }
    // ---- the reordered run is accepted
    assert(reorders(op, op2, perm, inv)) by {
        assert forall|k: int| 0 <= k < op.len() implies 0 <= #[trigger] perm[k] < op.len() && inv[perm[k]] == k && op2[k] == op[perm[k]] by {
            assert(obs2[k] == obs[perm[k]]);
        }
    }
    lemma_bytes_reorder(op, op2, perm, inv);
    lemma_bytes_append(pp, op);
    lemma_bytes_append(pp, op2);
    let total = all.len() as int;
    if total > 0 {
        assert(rc::entry_rejection(all, split, total - 1) is None);
    }
    assert forall|m: int| 0 <= m < all2.len() implies #[trigger] rc::entry_rejection(all2, split, m) is None by {
        lemma_bytes_monotone(all2, m + 1, total);
        if m < split {
            assert(all2[m] == all[m]);
            assert(rc::entry_rejection(all, split, m) is None);
            assert forall|j: int| 0 <= j < m && rc::same_list(split, j, m) implies all2[j] != all2[m] by {
                assert(all2[j] == all[j]);
            }
        } else {
            let a = perm[m - split];
            assert(all2[m] == obs2[m - split].path);
            assert(obs2[m - split] == obs[a]);
            assert(all[split + a] == obs[a].path);
            assert(rc::entry_rejection(all, split, split + a) is None);
            assert forall|j: int| 0 <= j < m && rc::same_list(split, j, m) implies all2[j] != all2[m] by {
                let b = perm[j - split];
                assert(inv[perm[j - split]] == j - split && inv[perm[m - split]] == m - split);
                assert(all2[j] == obs2[j - split].path);
                assert(obs2[j - split] == obs[b]);
                assert(a != b);
            }
        }
    }
    lemma_all_none_first(all2, split, 0);
    // ---- the reordered observations say the same of every path
    assert forall|p: Seq<char>| rc::obs_has(obs2, p) <==> rc::obs_has(obs, p) by {
        if rc::obs_has(obs2, p) {
            let k = choose|k: int| 0 <= k < obs2.len() && #[trigger] obs2[k].path == p;
            assert(obs[perm[k]].path == p);
        }
        if rc::obs_has(obs, p) {
            let j = choose|j: int| 0 <= j < obs.len() && #[trigger] obs[j].path == p;
            assert(obs2[inv[j]] == obs[perm[inv[j]]]);
        }
    }
    assert forall|p: Seq<char>| rc::obs_has(obs, p) implies #[trigger] rc::obs_at(obs2, p) == rc::obs_at(obs, p) by {
        let k = choose|k: int| 0 <= k < obs2.len() && #[trigger] obs2[k].path == p;
        let j = choose|j: int| 0 <= j < obs.len() && #[trigger] obs[j].path == p;
        assert(obs2[k] == obs[perm[k]]);
        if perm[k] < j {
            assert(obs[perm[k]].path != obs[j].path);
        } else if perm[k] > j {
            assert(obs[j].path != obs[perm[k]].path);
        }
    }
    assert forall|p: Seq<char>| #[trigger] rc::expected_location(prev, obs2, p) == rc::expected_location(prev, obs, p) by {
        if rc::obs_has(obs, p) {
            assert(rc::obs_at(obs2, p) == rc::obs_at(obs, p));
        }
    }
    assert forall|p: Seq<char>| #[trigger] rc::path_changes(prev, obs2, p) == rc::path_changes(prev, obs, p) by {
        if rc::obs_has(obs, p) {
            assert(rc::obs_at(obs2, p) == rc::obs_at(obs, p));
        }
    }
    // ---- and the same of every identity
    assert forall|id: Identity, k: int| #[trigger] rc::observed_alias(obs2, id, k) <==> (0 <= k < n && rc::observed_alias(obs, id, perm[k])) by {
        if 0 <= k < n {
            assert(obs2[k] == obs[perm[k]]);
        }
    }
    assert forall|id: Identity, i: int, k: int| #[trigger] rc::rename_witness(prev, obs2, id, i, k)
        <==> (0 <= k < n && rc::rename_witness(prev, obs, id, i, perm[k])) by {
        if 0 <= k < n {
            assert(obs2[k] == obs[perm[k]]);
            if rc::rename_witness(prev, obs2, id, i, k) {
                assert forall|x: int| #[trigger] rc::observed_alias(obs, id, x) implies x == perm[k] by {
                    assert(perm[inv[x]] == x);
                    assert(rc::observed_alias(obs2, id, inv[x]));
                }
            }
            if rc::rename_witness(prev, obs, id, i, perm[k]) {
                assert forall|x: int| #[trigger] rc::observed_alias(obs2, id, x) implies x == k by {
                    assert(rc::observed_alias(obs, id, perm[x]));
                    assert(inv[perm[x]] == x);
                }
            }
        }
    }
    assert forall|id: Identity| #[trigger] rc::rename_qualifies(prev, obs2, id) <==> rc::rename_qualifies(prev, obs, id) by {
        if rc::rename_qualifies(prev, obs2, id) {
            let (i, k) = choose|i: int, k: int| rc::rename_witness(prev, obs2, id, i, k);
            assert(rc::rename_witness(prev, obs, id, i, perm[k]));
        }
        if rc::rename_qualifies(prev, obs, id) {
            let (i, j) = choose|i: int, j: int| rc::rename_witness(prev, obs, id, i, j);
            assert(perm[inv[j]] == j);
            assert(rc::rename_witness(prev, obs2, id, i, inv[j]));
        }
    }
    assert forall|id: Identity, c: ChangeView| #[trigger] rc::rename_entry(prev, obs2, id, c) <==> rc::rename_entry(prev, obs, id, c) by {
        if rc::rename_entry(prev, obs2, id, c) {
            let (i, k) = choose|i: int, k: int| rc::rename_witness(prev, obs2, id, i, k)
                && c == (ChangeView::RenameEvidence { from: prev[i].path, to: obs2[k].path });
            assert(rc::rename_witness(prev, obs, id, i, perm[k]));
            assert(obs2[k] == obs[perm[k]]);
        }
        if rc::rename_entry(prev, obs, id, c) {
            let (i, j) = choose|i: int, j: int| rc::rename_witness(prev, obs, id, i, j)
                && c == (ChangeView::RenameEvidence { from: prev[i].path, to: obs[j].path });
            assert(perm[inv[j]] == j);
            assert(rc::rename_witness(prev, obs2, id, i, inv[j]));
            assert(obs2[inv[j]] == obs[j]);
        }
    }
    // ---- so the plan for `obs` meets the contract for `obs2`
    let paths = plan.locations.map_values(|l: LocationView| l.path);
    lemma_changes_for_paths_agree(prev, obs, obs2, paths);
    assert forall|p: Seq<char>| paths.contains(p) <==> (rc::prev_has(prev, p) || rc::obs_has(obs2, p)) by {
        assert(rc::obs_has(obs2, p) <==> rc::obs_has(obs, p));
    }
    assert forall|k: int| 0 <= k < plan.locations.len() implies #[trigger] plan.locations[k] == rc::expected_location(prev, obs2, paths[k]) by {
        assert(rc::expected_location(prev, obs2, paths[k]) == rc::expected_location(prev, obs, paths[k]));
    }
    let cut = rc::changes_for_paths(prev, obs, paths).len() as int;
    let ids = choose|ids: Seq<Identity>| rc::renames_for(prev, obs, ids, #[trigger] plan.changes.skip(cut));
    let renames = plan.changes.skip(cut);
    assert(rc::renames_for(prev, obs2, ids, renames)) by {
        assert forall|id: Identity| rc::rename_qualifies(prev, obs2, id) <==> ids.contains(id) by {
            assert(rc::rename_qualifies(prev, obs2, id) <==> rc::rename_qualifies(prev, obs, id));
        }
        assert forall|k: int| 0 <= k < ids.len() implies #[trigger] rc::rename_entry(prev, obs2, ids[k], renames[k]) by {
            assert(rc::rename_entry(prev, obs, ids[k], renames[k]));
        }
    }
}

/// The changes for `paths` are those for each of its paths.
proof fn lemma_changes_for_paths_contains(prev: Seq<LocationView>, obs: Seq<ObservationView>, paths: Seq<Seq<char>>, c: ChangeView)
    ensures
        rc::changes_for_paths(prev, obs, paths).contains(c)
            <==> exists|k: int| 0 <= k < paths.len() && #[trigger] rc::path_changes(prev, obs, paths[k]).contains(c),
    decreases paths.len(),
{
    if paths.len() > 0 {
        let init = paths.drop_last();
        lemma_changes_for_paths_contains(prev, obs, init, c);
        let a = rc::changes_for_paths(prev, obs, init);
        let b = rc::path_changes(prev, obs, paths.last());
        if (a + b).contains(c) {
            let n = choose|n: int| 0 <= n < (a + b).len() && (a + b)[n] == c;
            if n < a.len() {
                assert(a[n] == c);
                let k = choose|k: int| 0 <= k < init.len() && #[trigger] rc::path_changes(prev, obs, init[k]).contains(c);
                assert(init[k] == paths[k]);
            } else {
                assert(b[n - a.len()] == c);
                assert(rc::path_changes(prev, obs, paths[paths.len() - 1]).contains(c));
            }
        }
        if exists|k: int| 0 <= k < paths.len() && #[trigger] rc::path_changes(prev, obs, paths[k]).contains(c) {
            let k = choose|k: int| 0 <= k < paths.len() && #[trigger] rc::path_changes(prev, obs, paths[k]).contains(c);
            if k < init.len() {
                assert(init[k] == paths[k]);
                assert(a.contains(c));
                let n = choose|n: int| 0 <= n < a.len() && a[n] == c;
                assert((a + b)[n] == c);
            } else {
                let n = choose|n: int| 0 <= n < b.len() && b[n] == c;
                assert((a + b)[a.len() + n] == c);
            }
        }
    }
}

/// Every change proposed for a path names that path.
proof fn lemma_path_changes_name_their_path(prev: Seq<LocationView>, obs: Seq<ObservationView>, q: Seq<char>, p: Seq<char>)
    ensures
        rc::path_changes(prev, obs, q).contains(ChangeView::Modified(p)) ==> q == p,
        rc::path_changes(prev, obs, q).contains(ChangeView::Restored(p)) ==> q == p,
{
    let cs = rc::path_changes(prev, obs, q);
    if cs.contains(ChangeView::Modified(p)) || cs.contains(ChangeView::Restored(p)) {
        let c = if cs.contains(ChangeView::Modified(p)) { ChangeView::Modified(p) } else { ChangeView::Restored(p) };
        let n = choose|n: int| 0 <= n < cs.len() && cs[n] == c;
        if rc::prev_has(prev, q) && rc::obs_has(obs, q) {
            let before = rc::prev_at(prev, q);
            let restored = if !before.present { seq![ChangeView::Restored(q)] } else { seq![] };
            if n < restored.len() {
                assert(cs[n] == restored[n]);
            } else {
                assert(cs[n] == (cs.subrange(restored.len() as int, cs.len() as int))[n - restored.len()]);
            }
        }
    }
}

/// A path recorded before and observed now, whose file keeps its identity
/// (neither side lost it to another file), is reported `Modified` in an
/// accepted plan exactly when its metadata changed, and `Restored` exactly
/// when its previous location was not present: the two are independent, so
/// a restored file whose content changed is reported both restored and
/// modified.
pub proof fn law_content_change_is_reported_with_or_without_restore(
    prev: Seq<LocationView>,
    obs: Seq<ObservationView>,
    plan: PlanView,
    p: Seq<char>,
)
    requires
        rc::plan_matches(prev, obs, plan),
        rc::prev_has(prev, p),
        rc::obs_has(obs, p),
        !(rc::prev_at(prev, p).metadata.identity is Some && rc::obs_at(obs, p).metadata.identity is Some
            && rc::prev_at(prev, p).metadata.identity != rc::obs_at(obs, p).metadata.identity),
    ensures
        plan.changes.contains(ChangeView::Modified(p)) <==> rc::prev_at(prev, p).metadata != rc::obs_at(obs, p).metadata,
        plan.changes.contains(ChangeView::Restored(p)) <==> !rc::prev_at(prev, p).present,
{
    let paths = plan.locations.map_values(|l: LocationView| l.path);
    let cfp = rc::changes_for_paths(prev, obs, paths);
    let m = cfp.len() as int;
    assert(paths.contains(p));
    let kp = choose|k: int| 0 <= k < paths.len() && paths[k] == p;
    assert(plan.changes =~= plan.changes.take(m) + plan.changes.skip(m));
    let ids = choose|ids: Seq<Identity>| rc::renames_for(prev, obs, ids, #[trigger] plan.changes.skip(m));
    let tail = plan.changes.skip(m);
    assert forall|c: ChangeView| (c == ChangeView::Modified(p) || c == ChangeView::Restored(p))
        implies (plan.changes.contains(c) <==> cfp.contains(c)) by {
        if plan.changes.contains(c) {
            let n = choose|n: int| 0 <= n < plan.changes.len() && plan.changes[n] == c;
            if n >= m {
                assert(tail[n - m] == c);
                assert(rc::rename_entry(prev, obs, ids[n - m], tail[n - m]));
            } else {
                assert(plan.changes.take(m)[n] == c);
            }
        }
        if cfp.contains(c) {
            let n = choose|n: int| 0 <= n < cfp.len() && cfp[n] == c;
            assert(plan.changes.take(m)[n] == c);
            assert(plan.changes[n] == c);
        }
    }
    let here = rc::path_changes(prev, obs, p);
    assert forall|c: ChangeView| (c == ChangeView::Modified(p) || c == ChangeView::Restored(p))
        implies (cfp.contains(c) <==> here.contains(c)) by {
        lemma_changes_for_paths_contains(prev, obs, paths, c);
        if cfp.contains(c) {
            let k = choose|k: int| 0 <= k < paths.len() && #[trigger] rc::path_changes(prev, obs, paths[k]).contains(c);
            lemma_path_changes_name_their_path(prev, obs, paths[k], p);
        } else {
            assert(rc::path_changes(prev, obs, paths[kp]).contains(c) ==> false);
        }
    }
    let before = rc::prev_at(prev, p);
    let after = rc::obs_at(obs, p);
    let restored = if !before.present { seq![ChangeView::Restored(p)] } else { seq![] };
    let changed = if before.metadata != after.metadata { seq![ChangeView::Modified(p)] } else { Seq::<ChangeView>::empty() };
    assert(here == restored + changed);
    if before.metadata != after.metadata {
        assert(here[restored.len() as int] == ChangeView::Modified(p));
        assert(here.contains(ChangeView::Modified(p)));
    } else {
        assert forall|n: int| 0 <= n < here.len() implies here[n] != ChangeView::Modified(p) by {
            assert(here[n] == restored[n]);
        }
        assert(!here.contains(ChangeView::Modified(p)));
    }
    if !before.present {
        assert(here[0] == ChangeView::Restored(p));
        assert(here.contains(ChangeView::Restored(p)));
    } else {
        assert forall|n: int| 0 <= n < here.len() implies here[n] != ChangeView::Restored(p) by {
            assert(here[n] == changed[n]);
        }
        assert(!here.contains(ChangeView::Restored(p)));
    }
    let modified = ChangeView::Modified(p);
    let restored_p = ChangeView::Restored(p);
    assert(plan.changes.contains(modified) <==> cfp.contains(modified));
    assert(cfp.contains(modified) <==> here.contains(modified));
    assert(plan.changes.contains(restored_p) <==> cfp.contains(restored_p));
    assert(cfp.contains(restored_p) <==> here.contains(restored_p));
}

/// `c` is a per-path change about `p`.
spec fn about(c: ChangeView, p: Seq<char>) -> bool {
    match c {
        ChangeView::Added(x) => x == p,
        ChangeView::Modified(x) => x == p,
        ChangeView::Replaced(x) => x == p,
        ChangeView::Missing(x) => x == p,
        ChangeView::Restored(x) => x == p,
        ChangeView::RenameEvidence { .. } => false,
    }
}

proof fn lemma_path_changes_are_about_their_path(prev: Seq<LocationView>, obs: Seq<ObservationView>, q: Seq<char>)
    ensures
        forall|n: int| 0 <= n < rc::path_changes(prev, obs, q).len() ==> about(#[trigger] rc::path_changes(prev, obs, q)[n], q),
{
    let cs = rc::path_changes(prev, obs, q);
    if rc::prev_has(prev, q) && rc::obs_has(obs, q) {
        let before = rc::prev_at(prev, q);
        let after = rc::obs_at(obs, q);
        let restored = if !before.present { seq![ChangeView::Restored(q)] } else { seq![] };
        let changed = if before.metadata.identity is Some && after.metadata.identity is Some
            && before.metadata.identity != after.metadata.identity {
            seq![ChangeView::Replaced(q)]
        } else if before.metadata != after.metadata {
            seq![ChangeView::Modified(q)]
        } else {
            Seq::<ChangeView>::empty()
        };
        assert(cs == restored + changed);
        assert forall|n: int| 0 <= n < cs.len() implies about(#[trigger] cs[n], q) by {
            if n < restored.len() {
                assert(cs[n] == restored[n]);
            } else {
                assert(cs[n] == changed[n - restored.len()]);
            }
        }
    }
}

/// Which per-path changes an accepted plan reports for any path `p`, stated
/// from the inputs: `Added` when it is observed and was not recorded;
/// `Missing` when it was recorded present and is not observed; for a path
/// both recorded and observed, `Restored` when the recorded location was
/// not present, `Replaced` when both sides carry an identity and they
/// differ, and otherwise `Modified` when the metadata changed. Nothing else
/// is reported about `p`.
pub proof fn law_changes_reported_for_each_path(
    prev: Seq<LocationView>,
    obs: Seq<ObservationView>,
    plan: PlanView,
    p: Seq<char>,
)
    requires
        rc::plan_matches(prev, obs, plan),
    ensures
        ({
            let both = rc::prev_has(prev, p) && rc::obs_has(obs, p);
            let replaced = both && rc::prev_at(prev, p).metadata.identity is Some && rc::obs_at(obs, p).metadata.identity is Some
                && rc::prev_at(prev, p).metadata.identity != rc::obs_at(obs, p).metadata.identity;
            &&& plan.changes.contains(ChangeView::Added(p)) <==> rc::obs_has(obs, p) && !rc::prev_has(prev, p)
            &&& plan.changes.contains(ChangeView::Missing(p))
                <==> rc::prev_has(prev, p) && rc::prev_at(prev, p).present && !rc::obs_has(obs, p)
            &&& plan.changes.contains(ChangeView::Restored(p)) <==> both && !rc::prev_at(prev, p).present
            &&& plan.changes.contains(ChangeView::Replaced(p)) <==> replaced
            &&& plan.changes.contains(ChangeView::Modified(p))
                <==> both && !replaced && rc::prev_at(prev, p).metadata != rc::obs_at(obs, p).metadata
        }),
{
    let paths = plan.locations.map_values(|l: LocationView| l.path);
    let cfp = rc::changes_for_paths(prev, obs, paths);
    let m = cfp.len() as int;
    assert(plan.changes =~= plan.changes.take(m) + plan.changes.skip(m));
    let ids = choose|ids: Seq<Identity>| rc::renames_for(prev, obs, ids, #[trigger] plan.changes.skip(m));
    let tail = plan.changes.skip(m);
    let here = rc::path_changes(prev, obs, p);
    assert forall|c: ChangeView| about(c, p) implies (plan.changes.contains(c) <==> here.contains(c)) by {
        lemma_changes_for_paths_contains(prev, obs, paths, c);
        if plan.changes.contains(c) {
            let n = choose|n: int| 0 <= n < plan.changes.len() && plan.changes[n] == c;
            if n >= m {
                assert(tail[n - m] == c);
                assert(rc::rename_entry(prev, obs, ids[n - m], tail[n - m]));
            } else {
                assert(plan.changes.take(m)[n] == c);
                assert(cfp.contains(c));
                let k = choose|k: int| 0 <= k < paths.len() && #[trigger] rc::path_changes(prev, obs, paths[k]).contains(c);
                lemma_path_changes_are_about_their_path(prev, obs, paths[k]);
                let i = choose|i: int| 0 <= i < rc::path_changes(prev, obs, paths[k]).len() && rc::path_changes(prev, obs, paths[k])[i] == c;
                assert(about(c, paths[k]));
            }
        }
        if here.contains(c) {
            lemma_path_changes_are_about_their_path(prev, obs, p);
            assert(here.len() > 0);
            assert(rc::prev_has(prev, p) || rc::obs_has(obs, p));
            assert(paths.contains(p));
            let kp = choose|k: int| 0 <= k < paths.len() && paths[k] == p;
            assert(rc::path_changes(prev, obs, paths[kp]).contains(c));
            let n = choose|n: int| 0 <= n < cfp.len() && cfp[n] == c;
            assert(plan.changes.take(m)[n] == c);
            assert(plan.changes[n] == c);
        }
    }
    lemma_path_changes_are_about_their_path(prev, obs, p);
    let added = ChangeView::Added(p);
    let missing = ChangeView::Missing(p);
    let restored_p = ChangeView::Restored(p);
    let replaced_p = ChangeView::Replaced(p);
    let modified = ChangeView::Modified(p);
    assert(about(added, p) && about(missing, p) && about(restored_p, p) && about(replaced_p, p) && about(modified, p));
    if rc::prev_has(prev, p) && rc::obs_has(obs, p) {
        let before = rc::prev_at(prev, p);
        let after = rc::obs_at(obs, p);
        let restored = if !before.present { seq![restored_p] } else { seq![] };
        let changed = if before.metadata.identity is Some && after.metadata.identity is Some
            && before.metadata.identity != after.metadata.identity {
            seq![replaced_p]
        } else if before.metadata != after.metadata {
            seq![modified]
        } else {
            Seq::<ChangeView>::empty()
        };
        assert(here == restored + changed);
        assert forall|c: ChangeView| here.contains(c) <==> (restored.contains(c) || changed.contains(c)) by {
            if here.contains(c) {
                let n = choose|n: int| 0 <= n < here.len() && here[n] == c;
                if n < restored.len() {
                    assert(restored[n] == c);
                } else {
                    assert(changed[n - restored.len()] == c);
                }
            }
            if restored.contains(c) {
                let n = choose|n: int| 0 <= n < restored.len() && restored[n] == c;
                assert(here[n] == c);
            }
            if changed.contains(c) {
                let n = choose|n: int| 0 <= n < changed.len() && changed[n] == c;
                assert(here[restored.len() + n] == c);
            }
        }
        if !before.present {
            assert(restored[0] == restored_p);
        }
        if changed.len() > 0 {
            assert(changed.contains(changed[0]));
        }
    } else if rc::obs_has(obs, p) {
        assert(here == seq![added]);
        assert(here[0] == added);
    } else if rc::before_present(prev, p) {
        assert(here == seq![missing]);
        assert(here[0] == missing);
    } else {
        assert(here.len() == 0);
    }
}

} // verus!
