//! Small maps keyed by root id, kept as vectors sorted by key: the view is a
//! finite map, and iteration order is ascending key order.
use vstd::prelude::*;

verus! {

pub open spec fn keys_sorted<V>(s: Seq<(u64, V)>) -> bool {
    forall|a: int, b: int| 0 <= a < b < s.len() ==> (#[trigger] s[a]).0 < (#[trigger] s[b]).0
}

pub open spec fn has_key<V>(s: Seq<(u64, V)>, r: u64) -> bool {
    exists|k: int| 0 <= k < s.len() && (#[trigger] s[k]).0 == r
}

/// The map that a key-sorted vector stands for.
pub open spec fn as_map<V>(s: Seq<(u64, V)>) -> Map<u64, V> {
    Map::new(|r: u64| has_key(s, r), |r: u64| s[choose|k: int| 0 <= k < s.len() && (#[trigger] s[k]).0 == r].1)
}

/// The keys of a key-sorted vector, as a finite set.
pub open spec fn key_set<V>(s: Seq<(u64, V)>) -> Set<u64> {
    s.map_values(|e: (u64, V)| e.0).to_set()
}

pub proof fn lemma_as_map_index<V>(s: Seq<(u64, V)>, k: int)
    requires
        keys_sorted(s),
        0 <= k < s.len(),
    ensures
        as_map(s).contains_key(s[k].0),
        as_map(s)[s[k].0] == s[k].1,
{
    let r = s[k].0;
    assert(has_key(s, r));
    let c = choose|c: int| 0 <= c < s.len() && (#[trigger] s[c]).0 == r;
    if c < k {
        assert(s[c].0 < s[k].0);
    } else if c > k {
        assert(s[k].0 < s[c].0);
    }
}

pub proof fn lemma_key_set_generic<V>(s: Seq<(u64, V)>)
    ensures
        key_set(s).finite(),
        forall|r: u64| key_set(s).contains(r) <==> has_key(s, r),
        keys_sorted(s) ==> key_set(s).len() == s.len(),
{
    let m = s.map_values(|e: (u64, V)| e.0);
    vstd::seq_lib::seq_to_set_is_finite(m);
    assert forall|r: u64| key_set(s).contains(r) <==> has_key(s, r) by {
        if m.contains(r) {
            let k = choose|k: int| 0 <= k < m.len() && m[k] == r;
            assert(s[k].0 == r);
        }
        if has_key(s, r) {
            let k = choose|k: int| 0 <= k < s.len() && (#[trigger] s[k]).0 == r;
            assert(m[k] == r);
        }
    }
    if keys_sorted(s) {
        assert(m.no_duplicates()) by {
            assert forall|a: int, b: int| 0 <= a < m.len() && 0 <= b < m.len() && a != b implies m[a] != m[b] by {
                if a < b {
                    assert(s[a].0 < s[b].0);
                } else {
                    assert(s[b].0 < s[a].0);
                }
            }
        }
        m.unique_seq_to_set();
    }
}

/// Where `r` is (`Ok`) or would be inserted (`Err`) in a key-sorted vector.
pub fn locate<V>(s: &Vec<(u64, V)>, r: u64) -> (res: Result<usize, usize>)
    requires
        keys_sorted(s@),
    ensures
        match res {
            Ok(k) => k < s.len() && s@[k as int].0 == r,
            Err(k) => k <= s.len() && !has_key(s@, r)
                && (forall|a: int| 0 <= a < k ==> (#[trigger] s@[a]).0 < r)
                && (forall|a: int| k <= a < s.len() ==> (#[trigger] s@[a]).0 > r),
        },
{
    let mut k: usize = 0;
    while k < s.len()
        invariant
            keys_sorted(s@),
            k <= s.len(),
            forall|a: int| 0 <= a < k ==> (#[trigger] s@[a]).0 < r,
        decreases s.len() - k,
    {
        let key = s[k].0;
        if key == r {
            return Ok(k);
        }
        if key > r {
            proof {
                assert forall|a: int| k <= a < s.len() implies (#[trigger] s@[a]).0 > r by {
                    if a > k {
                        assert(s@[k as int].0 < s@[a].0);
                    }
                }
            }
            return Err(k);
        }
        k = k + 1;
    }
    Err(k)
}

/// Inserts a new key at its sorted position.
pub fn insert_at<V>(s: &mut Vec<(u64, V)>, pos: usize, r: u64, v: V)
    requires
        keys_sorted(old(s)@),
        pos <= old(s).len(),
        forall|a: int| 0 <= a < pos ==> (#[trigger] old(s)@[a]).0 < r,
        forall|a: int| pos <= a < old(s).len() ==> (#[trigger] old(s)@[a]).0 > r,
    ensures
        keys_sorted(final(s)@),
        final(s)@ == old(s)@.insert(pos as int, (r, v)),
        as_map(final(s)@) == as_map(old(s)@).insert(r, v),
        final(s).len() == old(s).len() + 1,
{
    let ghost o = s@;
    s.insert(pos, (r, v));
    proof {
        let n = s@;
        assert forall|a: int, b: int| 0 <= a < b < n.len() implies (#[trigger] n[a]).0 < (#[trigger] n[b]).0 by {
            if a < pos && b < pos {
                assert(o[a].0 < o[b].0);
            } else if a < pos && b > pos {
                assert(o[a].0 < o[b - 1].0);
            } else if a == pos && b > pos {
                assert(o[b - 1].0 > r);
            } else if a > pos {
                assert(o[a - 1].0 < o[b - 1].0);
            }
        }
        assert forall|x: u64| #[trigger] has_key(n, x) <==> (has_key(o, x) || x == r) by {
            if has_key(n, x) {
                let k = choose|k: int| 0 <= k < n.len() && (#[trigger] n[k]).0 == x;
                if k < pos {
                    assert(o[k].0 == x);
                } else if k > pos {
                    assert(o[k - 1].0 == x);
                }
            }
            if has_key(o, x) {
                let k = choose|k: int| 0 <= k < o.len() && (#[trigger] o[k]).0 == x;
                if k < pos {
                    assert(n[k].0 == x);
                } else {
                    assert(n[k + 1].0 == x);
                }
            }
            if x == r {
                assert(n[pos as int].0 == x);
            }
        }
        assert forall|x: u64| #[trigger] as_map(n).contains_key(x) implies as_map(n)[x] == as_map(o).insert(r, v)[x] by {
            let k = choose|k: int| 0 <= k < n.len() && (#[trigger] n[k]).0 == x;
            lemma_as_map_index(n, k);
            if k < pos {
                lemma_as_map_index(o, k);
            } else if k > pos {
                lemma_as_map_index(o, k - 1);
            }
        }
        assert(as_map(n) =~= as_map(o).insert(r, v));
    }
}

/// Replaces the value stored at position `pos`.
pub fn set_at<V>(s: &mut Vec<(u64, V)>, pos: usize, v: V)
    requires
        keys_sorted(old(s)@),
        pos < old(s).len(),
    ensures
        keys_sorted(final(s)@),
        final(s).len() == old(s).len(),
        as_map(final(s)@) == as_map(old(s)@).insert(old(s)@[pos as int].0, v),
        forall|x: u64| has_key(final(s)@, x) <==> has_key(old(s)@, x),
{
    let ghost o = s@;
    let r = s[pos].0;
    s.set(pos, (r, v));
    proof {
        let n = s@;
        assert forall|a: int, b: int| 0 <= a < b < n.len() implies (#[trigger] n[a]).0 < (#[trigger] n[b]).0 by {
            assert(o[a].0 < o[b].0);
        }
        assert forall|x: u64| #[trigger] has_key(n, x) <==> has_key(o, x) by {
            if has_key(n, x) {
                let k = choose|k: int| 0 <= k < n.len() && (#[trigger] n[k]).0 == x;
                assert(o[k].0 == x);
            }
            if has_key(o, x) {
                let k = choose|k: int| 0 <= k < o.len() && (#[trigger] o[k]).0 == x;
                assert(n[k].0 == x);
            }
        }
        assert(has_key(o, r)) by { assert(o[pos as int].0 == r); }
        assert forall|x: u64| #[trigger] as_map(n).contains_key(x) implies as_map(n)[x] == as_map(o).insert(r, v)[x] by {
            let k = choose|k: int| 0 <= k < n.len() && (#[trigger] n[k]).0 == x;
            lemma_as_map_index(n, k);
            lemma_as_map_index(o, k);
        }
        assert(as_map(n) =~= as_map(o).insert(r, v));
    }
}

/// Removes the entry at position `pos`.
pub fn remove_at<V>(s: &mut Vec<(u64, V)>, pos: usize)
    requires
        keys_sorted(old(s)@),
        pos < old(s).len(),
    ensures
        keys_sorted(final(s)@),
        final(s)@ == old(s)@.remove(pos as int),
        as_map(final(s)@) == as_map(old(s)@).remove(old(s)@[pos as int].0),
        forall|x: u64| has_key(final(s)@, x) <==> (has_key(old(s)@, x) && x != old(s)@[pos as int].0),
{
    let ghost o = s@;
    let ghost r = s@[pos as int].0;
    s.remove(pos);
    proof {
        let n = s@;
        assert forall|a: int, b: int| 0 <= a < b < n.len() implies (#[trigger] n[a]).0 < (#[trigger] n[b]).0 by {
            if b < pos {
                assert(o[a].0 < o[b].0);
            } else if a < pos {
                assert(o[a].0 < o[b + 1].0);
            } else {
                assert(o[a + 1].0 < o[b + 1].0);
            }
        }
        assert forall|x: u64| #[trigger] has_key(n, x) <==> (has_key(o, x) && x != r) by {
            if has_key(n, x) {
                let k = choose|k: int| 0 <= k < n.len() && (#[trigger] n[k]).0 == x;
                if k < pos {
                    assert(o[k].0 == x);
                    assert(o[k].0 < o[pos as int].0);
                } else {
                    assert(o[k + 1].0 == x);
                    assert(o[pos as int].0 < o[k + 1].0);
                }
            }
            if has_key(o, x) && x != r {
                let k = choose|k: int| 0 <= k < o.len() && (#[trigger] o[k]).0 == x;
                if k < pos {
                    assert(n[k].0 == x);
                } else {
                    assert(k != pos);
                    assert(n[k - 1].0 == x);
                }
            }
        }
        assert forall|x: u64| #[trigger] as_map(n).contains_key(x) implies as_map(n)[x] == as_map(o)[x] by {
            let k = choose|k: int| 0 <= k < n.len() && (#[trigger] n[k]).0 == x;
            lemma_as_map_index(n, k);
            if k < pos {
                lemma_as_map_index(o, k);
            } else {
                lemma_as_map_index(o, k + 1);
            }
        }
        assert(as_map(n) =~= as_map(o).remove(r));
    }
}

/// Sets the value of key `r`, inserting it at its sorted position when new.
pub fn put<V>(s: &mut Vec<(u64, V)>, r: u64, v: V)
    requires
        keys_sorted(old(s)@),
    ensures
        keys_sorted(final(s)@),
        as_map(final(s)@) == as_map(old(s)@).insert(r, v),
{
    match locate(s, r) {
        Ok(k) => set_at(s, k, v),
        Err(k) => insert_at(s, k, r, v),
    }
}

/// The value of key `r`, if present.
pub fn get<V: Copy>(s: &Vec<(u64, V)>, r: u64) -> (res: Option<V>)
    requires
        keys_sorted(s@),
    ensures
        res == (if as_map(s@).contains_key(r) { Some(as_map(s@)[r]) } else { None::<V> }),
{
    match locate(s, r) {
        Ok(k) => {
            proof { lemma_as_map_index(s@, k as int); }
            Some(s[k].1)
        },
        Err(_) => None,
    }
}

} // verus!
