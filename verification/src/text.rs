//! Character-level helpers shared by the path and key logic: decoding a
//! string into its characters, building a string back from characters, and
//! the byte-wise (code point) order that `String`'s `Ord` uses.
use vstd::prelude::*;

verus! {

/// The characters of `s`, in order.
pub fn chars_of(s: &str) -> (r: Vec<char>)
    ensures
        r@ == s@,
{
    let mut r: Vec<char> = Vec::new();
    for c in it: s.chars()
        invariant
            r@ == it.seq().take(it.index() as int),
            it.seq() == s@,
    {
        r.push(c);
    }
    r
}

/// `String::push`: appends one character.
#[verifier::external_body]
pub(crate) fn push_char(s: &mut String, c: char)
    ensures
        final(s)@ == old(s)@.push(c),
{
    s.push(c);
}

/// Builds the string whose characters are `chars[from..to]`.
pub fn string_from_range(chars: &Vec<char>, from: usize, to: usize) -> (s: String)
    requires
        from <= to <= chars.len(),
    ensures
        s@ == chars@.subrange(from as int, to as int),
{
    let mut s = String::new();
    let mut i = from;
    while i < to
        invariant
            from <= i <= to <= chars.len(),
            s@ == chars@.subrange(from as int, i as int),
        decreases to - i,
    {
        push_char(&mut s, chars[i]);
        i = i + 1;
    }
    s
}

/// Builds the string whose characters are exactly `chars`.
pub fn string_from_chars(chars: &Vec<char>) -> (s: String)
    ensures
        s@ == chars@,
{
    let s = string_from_range(chars, 0, chars.len());
    assert(chars@.subrange(0, chars@.len() as int) =~= chars@);
    s
}

/// Lexicographic order on code points; for strings this is the same order as
/// the byte-wise order of their UTF-8 encodings, which is `String`'s `Ord`.
pub open spec fn seq_lt(a: Seq<char>, b: Seq<char>) -> bool
    decreases a.len(),
{
    if b.len() == 0 {
        false
    } else if a.len() == 0 {
        true
    } else if (a[0] as u32) < (b[0] as u32) {
        true
    } else if a[0] == b[0] {
        seq_lt(a.drop_first(), b.drop_first())
    } else {
        false
    }
}

pub proof fn lemma_char_u32_injective(x: char, y: char)
    ensures
        (x as u32) == (y as u32) ==> x == y,
{
}

pub proof fn lemma_seq_lt_irreflexive(a: Seq<char>)
    ensures
        !seq_lt(a, a),
    decreases a.len(),
{
    if a.len() > 0 {
        lemma_seq_lt_irreflexive(a.drop_first());
    }
}

pub proof fn lemma_seq_lt_asymmetric(a: Seq<char>, b: Seq<char>)
    ensures
        seq_lt(a, b) ==> !seq_lt(b, a),
    decreases a.len(),
{
    if a.len() > 0 && b.len() > 0 && a[0] == b[0] {
        lemma_seq_lt_asymmetric(a.drop_first(), b.drop_first());
    }
}

pub proof fn lemma_seq_lt_transitive(a: Seq<char>, b: Seq<char>, c: Seq<char>)
    requires
        seq_lt(a, b),
        seq_lt(b, c),
    ensures
        seq_lt(a, c),
    decreases a.len(),
{
    if a.len() > 0 && b.len() > 0 && c.len() > 0 {
        if a[0] == b[0] && b[0] == c[0] {
            lemma_seq_lt_transitive(a.drop_first(), b.drop_first(), c.drop_first());
        }
    }
}

pub proof fn lemma_seq_lt_total(a: Seq<char>, b: Seq<char>)
    ensures
        a != b ==> seq_lt(a, b) || seq_lt(b, a),
    decreases a.len(),
{
    if a.len() > 0 && b.len() > 0 {
        if a[0] == b[0] {
            lemma_seq_lt_total(a.drop_first(), b.drop_first());
            if a.drop_first() == b.drop_first() {
                assert(a =~= seq![a[0]] + a.drop_first());
                assert(b =~= seq![b[0]] + b.drop_first());
            }
        } else {
            lemma_char_u32_injective(a[0], b[0]);
        }
    } else if a.len() == 0 && b.len() == 0 {
        assert(a =~= b);
    }
}

/// Whether `a[from..]` is less than `b[from..]`, given equal earlier items.
fn chars_lt_from(a: &Vec<char>, b: &Vec<char>, from: usize) -> (r: bool)
    requires
        from <= a.len(),
        from <= b.len(),
    ensures
        r == seq_lt(a@.subrange(from as int, a@.len() as int), b@.subrange(from as int, b@.len() as int)),
    decreases a.len() - from,
{
    let ghost sa = a@.subrange(from as int, a@.len() as int);
    let ghost sb = b@.subrange(from as int, b@.len() as int);
    if from == b.len() {
        return false;
    }
    if from == a.len() {
        return true;
    }
    let x = a[from] as u32;
    let y = b[from] as u32;
    if x < y {
        return true;
    }
    if a[from] == b[from] {
        assert(sa.drop_first() =~= a@.subrange(from + 1, a@.len() as int));
        assert(sb.drop_first() =~= b@.subrange(from + 1, b@.len() as int));
        return chars_lt_from(a, b, from + 1);
    }
    false
}

/// `seq_lt` on two character vectors.
pub fn chars_lt(a: &Vec<char>, b: &Vec<char>) -> (r: bool)
    ensures
        r == seq_lt(a@, b@),
{
    assert(a@.subrange(0, a@.len() as int) =~= a@);
    assert(b@.subrange(0, b@.len() as int) =~= b@);
    chars_lt_from(a, b, 0)
}

/// Equality of two character vectors.
pub fn chars_eq(a: &Vec<char>, b: &Vec<char>) -> (r: bool)
    ensures
        r == (a@ == b@),
{
    if a.len() != b.len() {
        return false;
    }
    let mut i: usize = 0;
    while i < a.len()
        invariant
            a.len() == b.len(),
            i <= a.len(),
            forall|k: int| 0 <= k < i ==> a@[k] == b@[k],
        decreases a.len() - i,
    {
        if a[i] != b[i] {
            return false;
        }
        i = i + 1;
    }
    assert(a@ =~= b@);
    true
}

pub open spec fn strictly_ascending(s: Seq<Seq<char>>) -> bool {
    forall|a: int, b: int| 0 <= a < b < s.len() ==> seq_lt(#[trigger] s[a], #[trigger] s[b])
}

/// A set of character strings, kept as a strictly ascending list so that
/// lookups are binary searches.
pub struct KeySet {
    keys: Vec<Vec<char>>,
}

impl View for KeySet {
    type V = Set<Seq<char>>;

    closed spec fn view(&self) -> Set<Seq<char>> {
        self.keys@.map_values(|v: Vec<char>| v@).to_set()
    }
}

impl KeySet {
    pub closed spec fn well_formed(&self) -> bool {
        strictly_ascending(self.keys@.map_values(|v: Vec<char>| v@))
    }

    pub fn new() -> (r: Self)
        ensures
            r.well_formed(),
            r@ == Set::<Seq<char>>::empty(),
    {
        let r = KeySet { keys: Vec::new() };
        assert(r.keys@.map_values(|v: Vec<char>| v@) =~= Seq::<Seq<char>>::empty());
        r
    }

    /// Adds `key`; `true` when it was not present before.
    pub fn insert(&mut self, key: Vec<char>) -> (fresh: bool)
        requires
            old(self).well_formed(),
        ensures
            final(self).well_formed(),
            fresh == !old(self)@.contains(key@),
            final(self)@ == old(self)@.insert(key@),
    {
        let ghost v = self.keys@.map_values(|x: Vec<char>| x@);
        let mut lo: usize = 0;
        let mut hi: usize = self.keys.len();
        while lo < hi
            invariant
                v == self.keys@.map_values(|x: Vec<char>| x@),
                strictly_ascending(v),
                lo <= hi <= v.len(),
                forall|k: int| 0 <= k < lo ==> seq_lt(#[trigger] v[k], key@),
                forall|k: int| hi <= k < v.len() ==> seq_lt(key@, #[trigger] v[k]) || v[k] == key@,
            decreases hi - lo,
        {
            let mid = lo + (hi - lo) / 2;
            assert(v[mid as int] == self.keys@[mid as int]@);
            if chars_lt(&self.keys[mid], &key) {
                proof {
                    assert forall|k: int| 0 <= k < mid + 1 implies seq_lt(#[trigger] v[k], key@) by {
                        if k < mid {
                            lemma_seq_lt_transitive(v[k], v[mid as int], key@);
                        }
                    }
                }
                lo = mid + 1;
            } else {
                proof {
                    lemma_seq_lt_total(v[mid as int], key@);
                    assert forall|k: int| mid <= k < v.len() implies seq_lt(key@, #[trigger] v[k]) || v[k] == key@ by {
                        if k > mid {
                            if v[mid as int] == key@ {
                            } else {
                                lemma_seq_lt_transitive(key@, v[mid as int], v[k]);
                            }
                        }
                    }
                }
                hi = mid;
            }
        }
        if lo < self.keys.len() && chars_eq(&self.keys[lo], &key) {
            proof {
                assert(v[lo as int] == key@);
                assert(v.to_set().contains(key@));
                assert(v.to_set().insert(key@) =~= v.to_set());
            }
            return false;
        }
        proof {
            if lo < v.len() {
                assert(v[lo as int] == self.keys@[lo as int]@);
                assert(seq_lt(key@, v[lo as int]));
            }
            assert forall|k: int| 0 <= k < v.len() implies v[k] != key@ by {
                if k < lo {
                    lemma_seq_lt_irreflexive(key@);
                } else {
                    if k > lo {
                        lemma_seq_lt_transitive(key@, v[lo as int], v[k]);
                    }
                    lemma_seq_lt_irreflexive(key@);
                }
            }
            assert(!v.to_set().contains(key@));
        }
        let ghost kv = key@;
        self.keys.insert(lo, key);
        proof {
            let nv = self.keys@.map_values(|x: Vec<char>| x@);
            assert(nv =~= v.insert(lo as int, kv));
            assert forall|a: int, b: int| 0 <= a < b < nv.len() implies seq_lt(#[trigger] nv[a], #[trigger] nv[b]) by {
                if b < lo {
                } else if a > lo {
                    assert(nv[a] == v[a - 1]);
                    assert(nv[b] == v[b - 1]);
                } else if a == lo {
                    assert(nv[b] == v[b - 1]);
                    if b - 1 > lo {
                        lemma_seq_lt_transitive(kv, v[lo as int], v[b - 1]);
                    }
                } else if b == lo {
                } else {
                    assert(nv[b] == v[b - 1]);
                    assert(a < lo);
                    assert(seq_lt(v[a], kv));
                    lemma_seq_lt_transitive(v[a], kv, v[b - 1]);
                }
            }
            assert forall|x: Seq<char>| nv.to_set().contains(x) <==> v.to_set().insert(kv).contains(x) by {
                if nv.to_set().contains(x) {
                    let i = choose|i: int| 0 <= i < nv.len() && nv[i] == x;
                    if i < lo {
                        assert(v[i] == x);
                    } else if i > lo {
                        assert(v[i - 1] == x);
                    }
                }
                if v.to_set().contains(x) && x != kv {
                    let i = choose|i: int| 0 <= i < v.len() && v[i] == x;
                    if i < lo {
                        assert(nv[i] == x);
                    } else {
                        assert(nv[i + 1] == x);
                    }
                }
                if x == kv {
                    assert(nv[lo as int] == x);
                }
            }
            assert(nv.to_set() =~= v.to_set().insert(kv));
        }
        true
    }
}

} // verus!
