//! Ordering of names: the lexicographic order of their characters (the
//! order Rust's `str` comparison gives, since UTF-8 keeps code point order),
//! and a stable sort of positions by name.
use vstd::prelude::*;
use vstd::string::StrSliceExecFns;
use crate::text::views;

verus! {

/// `a` sorts strictly before `b`: the first differing character is smaller,
/// or `a` is a proper prefix of `b`.
pub open spec fn name_lt(a: Seq<char>, b: Seq<char>) -> bool
    decreases a.len(),
{
    if a.len() == 0 {
        b.len() > 0
    } else if b.len() == 0 {
        false
    } else if a[0] != b[0] {
        a[0] < b[0]
    } else {
        name_lt(a.drop_first(), b.drop_first())
    }
}

/// Position `i` comes before position `j` in a stable sort of `names`.
pub open spec fn key_lt(names: Seq<Seq<char>>, i: int, j: int) -> bool {
    name_lt(names[i], names[j]) || (names[i] == names[j] && i < j)
}

/// `idx` lists each position of `names` once, ordered by name, equal names
/// in the order they are listed.
pub open spec fn stable_order(names: Seq<Seq<char>>, idx: Seq<usize>) -> bool {
    &&& idx.len() == names.len()
    &&& forall|k: int| 0 <= k < idx.len() ==> #[trigger] idx[k] < names.len()
    &&& forall|k: int, l: int| 0 <= k < l < idx.len() ==> key_lt(names, #[trigger] idx[k] as int, #[trigger] idx[l] as int)
    &&& forall|j: usize| j < names.len() ==> #[trigger] idx.contains(j)
}

/// No name sorts before itself.
pub proof fn lemma_name_lt_irreflexive(a: Seq<char>)
    ensures
        !name_lt(a, a),
    decreases a.len(),
{
    if a.len() > 0 {
        lemma_name_lt_irreflexive(a.drop_first());
    }
}

/// Name order is transitive.
pub proof fn lemma_name_lt_transitive(a: Seq<char>, b: Seq<char>, c: Seq<char>)
    requires
        name_lt(a, b),
        name_lt(b, c),
    ensures
        name_lt(a, c),
    decreases a.len(),
{
    if a.len() > 0 && b.len() > 0 && c.len() > 0 {
        if a[0] == b[0] && b[0] == c[0] {
            lemma_name_lt_transitive(a.drop_first(), b.drop_first(), c.drop_first());
        }
    }
}

/// Of two different names, one sorts before the other.
pub proof fn lemma_name_lt_total(a: Seq<char>, b: Seq<char>)
    ensures
        a == b || name_lt(a, b) || name_lt(b, a),
    decreases a.len(),
{
    if a.len() > 0 && b.len() > 0 {
        if a[0] == b[0] {
            lemma_name_lt_total(a.drop_first(), b.drop_first());
            if a.drop_first() == b.drop_first() {
                assert(a =~= seq![a[0]] + a.drop_first());
                assert(b =~= seq![b[0]] + b.drop_first());
            }
        }
    } else if a.len() == 0 && b.len() == 0 {
        assert(a =~= b);
    }
}

/// Two names never sort before each other.
pub proof fn lemma_name_lt_asymmetric(a: Seq<char>, b: Seq<char>)
    requires
        name_lt(a, b),
    ensures
        !name_lt(b, a),
{
    if name_lt(b, a) {
        lemma_name_lt_transitive(a, b, a);
        lemma_name_lt_irreflexive(a);
    }
}

proof fn lemma_name_lt_skip(a: Seq<char>, b: Seq<char>, k: int)
    requires
        0 <= k <= a.len(),
        k <= b.len(),
        a.take(k) == b.take(k),
    ensures
        name_lt(a, b) == name_lt(a.skip(k), b.skip(k)),
    decreases k,
{
    if k > 0 {
        assert(a[0] == a.take(k)[0]);
        assert(b[0] == b.take(k)[0]);
        assert(a.drop_first().take(k - 1) =~= a.take(k).drop_first());
        assert(b.drop_first().take(k - 1) =~= b.take(k).drop_first());
        lemma_name_lt_skip(a.drop_first(), b.drop_first(), k - 1);
        assert(a.drop_first().skip(k - 1) =~= a.skip(k));
        assert(b.drop_first().skip(k - 1) =~= b.skip(k));
    } else {
        assert(a.skip(0) =~= a);
        assert(b.skip(0) =~= b);
    }
}

/// Whether `a` sorts strictly before `b`.
pub fn str_lt(a: &str, b: &str) -> (r: bool)
    ensures
        r == name_lt(a@, b@),
{
    let n = a.unicode_len();
    let m = b.unicode_len();
    let mut k: usize = 0;
    while k < n && k < m
        invariant
            n == a@.len(),
            m == b@.len(),
            k <= n,
            k <= m,
            a@.take(k as int) == b@.take(k as int),
        decreases n - k,
    {
        let x = a.get_char(k);
        let y = b.get_char(k);
        if x != y {
            proof {
                lemma_name_lt_skip(a@, b@, k as int);
                assert(a@.skip(k as int)[0] == x);
                assert(b@.skip(k as int)[0] == y);
            }
            return x < y;
        }
        assert(a@.take(k + 1) =~= a@.take(k as int).push(x));
        assert(b@.take(k + 1) =~= b@.take(k as int).push(y));
        k = k + 1;
    }
    proof {
        lemma_name_lt_skip(a@, b@, k as int);
    }
    k < m
}

/// Positions of `names` in stable name order.
pub fn stable_sort_by_name(names: &Vec<String>) -> (idx: Vec<usize>)
    ensures
        stable_order(views(names@), idx@),
{
    let ghost ns = views(names@);
    let mut idx: Vec<usize> = Vec::new();
    let mut i: usize = 0;
    while i < names.len()
        invariant
            i <= names@.len(),
            ns == views(names@),
            ns.len() == names@.len(),
            idx@.len() == i,
            forall|k: int| 0 <= k < idx@.len() ==> #[trigger] idx@[k] < i,
            forall|k: int, l: int| 0 <= k < l < idx@.len() ==> key_lt(ns, #[trigger] idx@[k] as int, #[trigger] idx@[l] as int),
            forall|j: usize| j < i ==> #[trigger] idx@.contains(j),
        decreases names@.len() - i,
    {
        // The new position goes before the first entry whose name is larger.
        let mut p: usize = 0;
        while p < idx.len()
            invariant
                p <= idx@.len(),
                i < names@.len(),
                ns == views(names@),
                ns.len() == names@.len(),
                forall|k: int| 0 <= k < idx@.len() ==> #[trigger] idx@[k] < i,
                forall|k: int| 0 <= k < p ==> !name_lt(ns[i as int], #[trigger] ns[idx@[k] as int]),
            ensures
                p <= idx@.len(),
                forall|k: int| 0 <= k < p ==> !name_lt(ns[i as int], #[trigger] ns[idx@[k] as int]),
                p < idx@.len() ==> name_lt(ns[i as int], ns[idx@[p as int] as int]),
            decreases idx@.len() - p,
        {
            assert(ns[idx@[p as int] as int] == names@[idx@[p as int] as int]@);
            assert(ns[i as int] == names@[i as int]@);
            if str_lt(names[i].as_str(), names[idx[p]].as_str()) {
                break;
            }
            p = p + 1;
        }
        let ghost old_idx = idx@;
        assert(forall|k: int| 0 <= k < p ==> !name_lt(ns[i as int], #[trigger] ns[old_idx[k] as int]));
        assert(p < old_idx.len() ==> name_lt(ns[i as int], ns[old_idx[p as int] as int])) by {
            if p < old_idx.len() {
                assert(ns[old_idx[p as int] as int] == names@[old_idx[p as int] as int]@);
                assert(ns[i as int] == names@[i as int]@);
            }
        }
        idx.insert(p, i);
        assert(idx@ == old_idx.insert(p as int, i));
        assert forall|k: int, l: int| 0 <= k < l < idx@.len() implies key_lt(ns, #[trigger] idx@[k] as int, #[trigger] idx@[l] as int) by {
            if k < p && l < p {
                assert(idx@[k] == old_idx[k] && idx@[l] == old_idx[l]);
            } else if k < p && l == p {
                let a = old_idx[k] as int;
                assert(!name_lt(ns[i as int], ns[a]));
                lemma_name_lt_total(ns[i as int], ns[a]);
            } else if k < p && l > p {
                assert(idx@[k] == old_idx[k] && idx@[l] == old_idx[l - 1]);
            } else if k == p {
                let b = old_idx[l - 1] as int;
                assert(idx@[l] == old_idx[l - 1]);
                if l - 1 == p {
                    assert(name_lt(ns[i as int], ns[b]));
                } else {
                    let c = old_idx[p as int] as int;
                    assert(name_lt(ns[i as int], ns[c]));
                    assert(key_lt(ns, c, b));
                    if name_lt(ns[c], ns[b]) {
                        lemma_name_lt_transitive(ns[i as int], ns[c], ns[b]);
                    }
                }
            } else {
                assert(idx@[k] == old_idx[k - 1] && idx@[l] == old_idx[l - 1]);
            }
        }
        assert forall|j: usize| j < i + 1 implies #[trigger] idx@.contains(j) by {
            if j == i {
                assert(idx@[p as int] == i);
            } else {
                assert(old_idx.contains(j));
                let w = choose|w: int| 0 <= w < old_idx.len() && old_idx[w] == j;
                if w < p {
                    assert(idx@[w] == j);
                } else {
                    assert(idx@[w + 1] == j);
                }
            }
        }
        i = i + 1;
    }
    idx
}

proof fn lemma_key_lt_asymmetric(names: Seq<Seq<char>>, x: int, y: int)
    requires
        key_lt(names, x, y),
    ensures
        !key_lt(names, y, x),
        x != y,
{
    if name_lt(names[x], names[y]) {
        lemma_name_lt_asymmetric(names[x], names[y]);
        lemma_name_lt_irreflexive(names[x]);
    } else {
        lemma_name_lt_irreflexive(names[x]);
    }
}

proof fn lemma_stable_prefix(names: Seq<Seq<char>>, a: Seq<usize>, b: Seq<usize>, p: int)
    requires
        stable_order(names, a),
        stable_order(names, b),
        0 <= p < a.len(),
    ensures
        forall|k: int| 0 <= k <= p ==> a[k] == b[k],
    decreases p,
{
    if p > 0 {
        lemma_stable_prefix(names, a, b, p - 1);
    }
    let x = a[p];
    let y = b[p];
    if x != y {
        // `x` sits somewhere in `b`, and `y` somewhere in `a`, both after `p`.
        assert(b.contains(x));
        let r = choose|r: int| 0 <= r < b.len() && b[r] == x;
        assert(a.contains(y));
        let q = choose|q: int| 0 <= q < a.len() && a[q] == y;
        if r < p {
            assert(a[r] == b[r]);
            lemma_key_lt_asymmetric(names, a[r] as int, a[p] as int);
        }
        if q < p {
            assert(a[q] == b[q]);
            lemma_key_lt_asymmetric(names, b[q] as int, b[p] as int);
        }
        assert(r > p && q > p);
        assert(key_lt(names, b[p] as int, b[r] as int));
        assert(key_lt(names, a[p] as int, a[q] as int));
        lemma_key_lt_asymmetric(names, y as int, x as int);
    }
}

/// The stable name order of a list is determined by the names alone: any two
/// orders that list each position once, by name and then by position, are
/// the same.
pub proof fn law_stable_order_unique(names: Seq<Seq<char>>, a: Seq<usize>, b: Seq<usize>)
    requires
        stable_order(names, a),
        stable_order(names, b),
    ensures
        a == b,
{
    if a.len() > 0 {
        lemma_stable_prefix(names, a, b, a.len() - 1);
    }
    assert(a =~= b);
}

} // verus!
