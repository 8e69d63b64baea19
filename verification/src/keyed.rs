//! Lists of pairs in which the first component is a key.
//!
//! The service map of a name, the records of a store and the entries of a
//! configuration are all such lists with distinct keys. This module holds their
//! common mathematical model.

use vstd::prelude::*;

verus! {

/// Some pair of `s` has the key `k`.
pub open spec fn has_key<K, V>(s: Seq<(K, V)>, k: K) -> bool {
    exists|i: int| 0 <= i < s.len() && (#[trigger] s[i]).0 == k
}

/// A position of `k` in `s`; the only one where the keys are distinct.
pub open spec fn index_of<K, V>(s: Seq<(K, V)>, k: K) -> int {
    choose|i: int| 0 <= i < s.len() && (#[trigger] s[i]).0 == k
}

/// No key occurs twice.
pub open spec fn distinct_keys<K, V>(s: Seq<(K, V)>) -> bool {
    forall|i: int, j: int| 0 <= i < j < s.len() ==> (#[trigger] s[i]).0 != (#[trigger] s[j]).0
}

/// The value stored under `k`, if any.
pub open spec fn lookup<K, V>(s: Seq<(K, V)>, k: K) -> Option<V> {
    if has_key(s, k) {
        Some(s[index_of(s, k)].1)
    } else {
        None
    }
}

/// `s` with `v` stored under `k`: in place where `k` is present, at the end otherwise.
pub open spec fn put<K, V>(s: Seq<(K, V)>, k: K, v: V) -> Seq<(K, V)> {
    if has_key(s, k) {
        s.update(index_of(s, k), (k, v))
    } else {
        s.push((k, v))
    }
}

/// `s` without the pair of key `k`; `s` itself where `k` is absent.
pub open spec fn without<K, V>(s: Seq<(K, V)>, k: K) -> Seq<(K, V)> {
    if has_key(s, k) {
        s.remove(index_of(s, k))
    } else {
        s
    }
}

/// The keys of `s`, in order.
pub open spec fn keys<K, V>(s: Seq<(K, V)>) -> Seq<K> {
    Seq::new(s.len(), |i: int| s[i].0)
}

/// The finite map that a list with distinct keys stands for.
pub open spec fn as_map<K, V>(s: Seq<(K, V)>) -> Map<K, V> {
    Map::new(|k: K| has_key(s, k), |k: K| s[index_of(s, k)].1)
}

/// With distinct keys, a key found at `i` is found nowhere else.
pub proof fn lemma_index_of<K, V>(s: Seq<(K, V)>, k: K, i: int)
    requires
        distinct_keys(s),
        0 <= i < s.len(),
        s[i].0 == k,
    ensures
        has_key(s, k),
        index_of(s, k) == i,
        lookup(s, k) == Some(s[i].1),
{
    let j = index_of(s, k);
    assert(0 <= j < s.len() && s[j].0 == k);
    if j < i {
        assert(s[j].0 != s[i].0);
    } else if i < j {
        assert(s[i].0 != s[j].0);
    }
}

/// Storing under a key keeps the keys distinct.
pub proof fn lemma_put_distinct<K, V>(s: Seq<(K, V)>, k: K, v: V)
    requires
        distinct_keys(s),
    ensures
        distinct_keys(put(s, k, v)),
{
    let t = put(s, k, v);
    if has_key(s, k) {
        let p = index_of(s, k);
        assert forall|i: int, j: int| 0 <= i < j < t.len() implies (#[trigger] t[i]).0 != (
        #[trigger] t[j]).0 by {
            assert(t[i].0 == s[i].0);
            assert(t[j].0 == s[j].0);
        }
    } else {
        assert forall|i: int, j: int| 0 <= i < j < t.len() implies (#[trigger] t[i]).0 != (
        #[trigger] t[j]).0 by {
            if j < s.len() {
                assert(t[i] == s[i] && t[j] == s[j]);
            } else {
                assert(t[i] == s[i]);
                assert(t[j].0 == k);
            }
        }
    }
}

/// Dropping a key keeps the keys distinct.
pub proof fn lemma_without_distinct<K, V>(s: Seq<(K, V)>, k: K)
    requires
        distinct_keys(s),
    ensures
        distinct_keys(without(s, k)),
{
    let t = without(s, k);
    if has_key(s, k) {
        let p = index_of(s, k);
        assert forall|i: int, j: int| 0 <= i < j < t.len() implies (#[trigger] t[i]).0 != (
        #[trigger] t[j]).0 by {
            let a = if i < p { i } else { i + 1 };
            let b = if j < p { j } else { j + 1 };
            assert(t[i] == s[a]);
            assert(t[j] == s[b]);
        }
    }
}

/// What is stored under `k` is found under `k`, and no other key is touched.
pub proof fn lemma_lookup_put<K, V>(s: Seq<(K, V)>, k: K, v: V, other: K)
    requires
        distinct_keys(s),
    ensures
        lookup(put(s, k, v), k) == Some(v),
        other != k ==> lookup(put(s, k, v), other) == lookup(s, other),
        has_key(put(s, k, v), other) <==> other == k || has_key(s, other),
{
    let t = put(s, k, v);
    lemma_put_distinct(s, k, v);
    let p = if has_key(s, k) { index_of(s, k) } else { s.len() as int };
    assert(t[p] == (k, v));
    lemma_index_of(t, k, p);
    if other != k {
        if has_key(s, other) {
            let q = index_of(s, other);
            assert(t[q] == s[q]);
            lemma_index_of(t, other, q);
        }
        if has_key(t, other) {
            let q = index_of(t, other);
            assert(q != p);
            assert(t[q] == s[q]);
            lemma_index_of(s, other, q);
        }
    }
}

/// A dropped key is gone, and no other key is touched.
pub proof fn lemma_lookup_without<K, V>(s: Seq<(K, V)>, k: K, other: K)
    requires
        distinct_keys(s),
    ensures
        lookup(without(s, k), k) == None::<V>,
        other != k ==> lookup(without(s, k), other) == lookup(s, other),
        has_key(without(s, k), other) <==> other != k && has_key(s, other),
        !has_key(s, k) ==> without(s, k) == s,
{
    let t = without(s, k);
    lemma_without_distinct(s, k);
    if has_key(s, k) {
        let p = index_of(s, k);
        if has_key(t, k) {
            let q = index_of(t, k);
            let a = if q < p { q } else { q + 1 };
            assert(t[q] == s[a]);
            lemma_index_of(s, k, a);
        }
        if other != k {
            if has_key(s, other) {
                let q = index_of(s, other);
                let a = if q < p { q } else { q - 1 };
                assert(t[a] == s[q]);
                lemma_index_of(t, other, a);
            }
            if has_key(t, other) {
                let q = index_of(t, other);
                let a = if q < p { q } else { q + 1 };
                assert(t[q] == s[a]);
                lemma_index_of(s, other, a);
            }
        }
    }
}

/// Storing and dropping act on the map that the list stands for as they do on a map.
pub proof fn lemma_as_map<K, V>(s: Seq<(K, V)>, k: K, v: V)
    requires
        distinct_keys(s),
    ensures
        as_map(put(s, k, v)) == as_map(s).insert(k, v),
        as_map(without(s, k)) == as_map(s).remove(k),
{
    assert forall|other: K|
        #![trigger as_map(put(s, k, v)).dom().contains(other)]
        #![trigger as_map(without(s, k)).dom().contains(other)]
        {
            &&& has_key(put(s, k, v), other) <==> other == k || has_key(s, other)
            &&& lookup(put(s, k, v), other) == if other == k {
                Some(v)
            } else {
                lookup(s, other)
            }
            &&& has_key(without(s, k), other) <==> other != k && has_key(s, other)
            &&& lookup(without(s, k), other) == if other == k {
                None
            } else {
                lookup(s, other)
            }
        } by {
        lemma_lookup_put(s, k, v, other);
        lemma_lookup_without(s, k, other);
    }
    assert(as_map(put(s, k, v)) =~= as_map(s).insert(k, v));
    assert(as_map(without(s, k)) =~= as_map(s).remove(k));
}

} // verus!
