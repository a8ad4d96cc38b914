//! Stable sorting by an integer key.
//!
//! A stable sort orders by key and keeps equal keys in their original
//! order; it is what inserting each element, in turn, after every element
//! whose key is not greater produces.

use vstd::prelude::*;

verus! {

/// Where an element with key `k` goes in `s`: after the last element, from
/// the end, whose key is not greater than `k`.
pub open spec fn upper_bound<T>(s: Seq<(u64, T)>, k: u64) -> int
    decreases s.len(),
{
    if s.len() == 0 {
        0
    } else if s.last().0 <= k {
        s.len() as int
    } else {
        upper_bound(s.drop_last(), k)
    }
}

/// The stable sort of `s` by its keys, ascending.
pub open spec fn stable_sort<T>(s: Seq<(u64, T)>) -> Seq<(u64, T)>
    decreases s.len(),
{
    if s.len() == 0 {
        Seq::empty()
    } else {
        let r = stable_sort(s.drop_last());
        r.insert(upper_bound(r, s.last().0), s.last())
    }
}

/// The values of keyed elements.
pub open spec fn unkeyed<T>(s: Seq<(u64, T)>) -> Seq<T> {
    s.map_values(|q: (u64, T)| q.1)
}

/// Whether the keys of `s` never decrease.
pub open spec fn keys_sorted<T>(s: Seq<(u64, T)>) -> bool {
    forall|i: int, j: int| 0 <= i <= j < s.len() ==> s[i].0 <= s[j].0
}

/// Where an element goes lies within the sequence, after keys not above
/// its own and before keys above it.
pub proof fn lemma_upper_bound_range<T>(s: Seq<(u64, T)>, k: u64)
    ensures
        0 <= upper_bound(s, k) <= s.len(),
        forall|j: int| upper_bound(s, k) <= j < s.len() ==> s[j].0 > k,
        upper_bound(s, k) > 0 ==> s[upper_bound(s, k) - 1].0 <= k,
    decreases s.len(),
{
    if s.len() > 0 && s.last().0 > k {
        let d = s.drop_last();
        lemma_upper_bound_range(d, k);
        assert forall|j: int| upper_bound(s, k) <= j < s.len() implies s[j].0 > k by {
            if j < d.len() {
                assert(s[j] == d[j]);
            }
        }
        if upper_bound(s, k) > 0 {
            assert(s[upper_bound(s, k) - 1] == d[upper_bound(s, k) - 1]);
        }
    }
}

/// A stable sort has the length of its input and sorted keys.
pub proof fn lemma_stable_sort_sorted<T>(s: Seq<(u64, T)>)
    ensures
        stable_sort(s).len() == s.len(),
        keys_sorted(stable_sort(s)),
    decreases s.len(),
{
    if s.len() > 0 {
        let r = stable_sort(s.drop_last());
        lemma_stable_sort_sorted(s.drop_last());
        let k = s.last().0;
        let p = upper_bound(r, k);
        lemma_upper_bound_range(r, k);
        let q = r.insert(p, s.last());
        assert forall|i: int, j: int| 0 <= i <= j < q.len() implies q[i].0 <= q[j].0 by {
            if i < p && j < p {
            } else if i < p && j == p {
                assert(r[i].0 <= r[p - 1].0);
            } else if i < p && j > p {
                assert(q[j] == r[j - 1]);
            } else if i == p && j > p {
                assert(q[j] == r[j - 1]);
            } else if i > p {
                assert(q[i] == r[i - 1]);
                assert(q[j] == r[j - 1]);
            }
        }
    }
}

/// Every element of a stable sort is an element of its input.
pub proof fn lemma_stable_sort_elements<T>(s: Seq<(u64, T)>)
    ensures
        forall|i: int| 0 <= i < stable_sort(s).len() ==> s.contains(#[trigger] stable_sort(s)[i]),
    decreases s.len(),
{
    if s.len() > 0 {
        let d = s.drop_last();
        let r = stable_sort(d);
        lemma_stable_sort_elements(d);
        lemma_upper_bound_range(r, s.last().0);
        let p = upper_bound(r, s.last().0);
        let q = r.insert(p, s.last());
        assert forall|i: int| 0 <= i < q.len() implies s.contains(q[i]) by {
            if i < p {
                assert(q[i] == r[i]);
                let j = choose|j: int| 0 <= j < d.len() && d[j] == r[i];
                assert(s[j] == d[j]);
            } else if i == p {
                assert(s[s.len() - 1] == s.last());
            } else {
                assert(q[i] == r[i - 1]);
                let j = choose|j: int| 0 <= j < d.len() && d[j] == r[i - 1];
                assert(s[j] == d[j]);
            }
        }
    }
}

/// Sorting a keyed sequence and then mapping its values gives what mapping
/// and then sorting gives: the order depends on the keys alone.
pub proof fn lemma_stable_sort_map<T, U>(s: Seq<(u64, T)>, f: spec_fn(T) -> U)
    ensures
        stable_sort(s).map_values(|p: (u64, T)| (p.0, f(p.1))) == stable_sort(
            s.map_values(|p: (u64, T)| (p.0, f(p.1))),
        ),
    decreases s.len(),
{
    let g = |p: (u64, T)| (p.0, f(p.1));
    if s.len() > 0 {
        lemma_stable_sort_map(s.drop_last(), f);
        let m = s.map_values(g);
        assert(m.drop_last() =~= s.drop_last().map_values(g));
        let r = stable_sort(s.drop_last());
        let rm = r.map_values(g);
        assert(rm == stable_sort(m.drop_last()));
        lemma_upper_bound_map(r, s.last().0, f);
        lemma_upper_bound_range(r, s.last().0);
        let p = upper_bound(r, s.last().0);
        let a = r.insert(p, s.last()).map_values(g);
        let b = rm.insert(p, m.last());
        assert(a.len() == b.len());
        assert forall|i: int| 0 <= i < a.len() implies a[i] == b[i] by {
            if i < p {
                assert(a[i] == g(r[i]));
            } else if i == p {
            } else {
                assert(a[i] == g(r[i - 1]));
            }
        }
        assert(a =~= b);
    } else {
        assert(s.map_values(g) =~= Seq::<(u64, U)>::empty());
        assert(stable_sort(s).map_values(g) =~= Seq::<(u64, U)>::empty());
    }
}

proof fn lemma_upper_bound_map<T, U>(s: Seq<(u64, T)>, k: u64, f: spec_fn(T) -> U)
    ensures
        upper_bound(s, k) == upper_bound(s.map_values(|p: (u64, T)| (p.0, f(p.1))), k),
    decreases s.len(),
{
    let g = |p: (u64, T)| (p.0, f(p.1));
    if s.len() > 0 {
        assert(s.map_values(g).drop_last() =~= s.drop_last().map_values(g));
        lemma_upper_bound_map(s.drop_last(), k, f);
    }
}

/// Sorts `v` stably by key, ascending.
pub fn sort_by_key<T>(v: Vec<(u64, T)>) -> (r: Vec<(u64, T)>)
    ensures
        r@ == stable_sort(v@),
{
    let ghost src = v@;
    let mut v = v;
    let mut rest: Vec<(u64, T)> = Vec::new();
    // Take the elements from the back, so that they can be inserted in order.
    while v.len() > 0
        invariant
            src == v@ + rest@.reverse(),
        decreases v@.len(),
    {
        let x = v.pop().unwrap();
        let ghost before = rest@;
        rest.push(x);
        proof {
            assert(rest@.reverse() =~= seq![x] + before.reverse());
            assert(src =~= v@ + rest@.reverse());
        }
    }
    assert(src =~= rest@.reverse());
    let mut out: Vec<(u64, T)> = Vec::new();
    let n = rest.len();
    let mut i: usize = 0;
    while i < n
        invariant
            n == src.len(),
            i <= n,
            rest@.len() == n - i,
            forall|j: int| 0 <= j < n - i ==> rest@[j] == src[n - 1 - j],
            out@ == stable_sort(src.take(i as int)),
        decreases n - i,
    {
        let x = rest.pop().unwrap();
        assert(x == src[i as int]);
        let k = x.0;
        let mut p = out.len();
        assert(out@.take(p as int) =~= out@);
        while p > 0 && out[p - 1].0 > k
            invariant
                p <= out@.len(),
                upper_bound(out@, k) == upper_bound(out@.take(p as int), k),
            decreases p,
        {
            assert(out@.take(p as int).drop_last() =~= out@.take(p - 1));
            p -= 1;
        }
        proof {
            if p > 0 {
                assert(out@.take(p as int).last() == out@[p - 1]);
            }
            let t = src.take(i + 1);
            assert(t.drop_last() =~= src.take(i as int));
            assert(t.last() == x);
        }
        out.insert(p, x);
        i += 1;
    }
    assert(src.take(n as int) =~= src);
    out
}

} // verus!
