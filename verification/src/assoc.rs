//! Association sequences: the mathematical model of the ordered tables that
//! the switchboard keeps. A table is a sequence of `(key, value)` pairs in
//! insertion order; with distinct keys it is a finite map that also remembers
//! the order in which its keys arrived.

use vstd::prelude::*;

verus! {

/// The model of an identifier: the characters of the string that names it.
pub type Key = Seq<char>;

/// Whether some pair of `s` carries the key `k`.
pub open spec fn has_key<T>(s: Seq<(Key, T)>, k: Key) -> bool {
    exists|i: int| 0 <= i < s.len() && (#[trigger] s[i]).0 == k
}

/// An index at which `k` sits; the only one when the keys are distinct.
pub open spec fn position<T>(s: Seq<(Key, T)>, k: Key) -> int
    recommends
        has_key(s, k),
{
    choose|i: int| 0 <= i < s.len() && (#[trigger] s[i]).0 == k
}

/// The value stored under `k`, if any.
pub open spec fn lookup<T>(s: Seq<(Key, T)>, k: Key) -> Option<T> {
    if has_key(s, k) {
        Some(s[position(s, k)].1)
    } else {
        None
    }
}

/// No key occurs twice.
pub open spec fn distinct_keys<T>(s: Seq<(Key, T)>) -> bool {
    forall|i: int, j: int| 0 <= i < j < s.len() ==> (#[trigger] s[i]).0 != (#[trigger] s[j]).0
}

/// `s` with `v` stored under `k`: in place when `k` is present, at the end
/// when it is new.
pub open spec fn put<T>(s: Seq<(Key, T)>, k: Key, v: T) -> Seq<(Key, T)> {
    if has_key(s, k) {
        s.update(position(s, k), (k, v))
    } else {
        s.push((k, v))
    }
}

/// `s` without the pair of `k`; the other pairs keep their order.
pub open spec fn del<T>(s: Seq<(Key, T)>, k: Key) -> Seq<(Key, T)> {
    if has_key(s, k) {
        s.remove(position(s, k))
    } else {
        s
    }
}

/// With distinct keys, the index of a key is determined by the key.
pub proof fn lemma_position_unique<T>(s: Seq<(Key, T)>, i: int)
    requires
        distinct_keys(s),
        0 <= i < s.len(),
    ensures
        has_key(s, s[i].0),
        position(s, s[i].0) == i,
        lookup(s, s[i].0) == Some(s[i].1),
{
    let k = s[i].0;
    assert(has_key(s, k));
    let p = position(s, k);
    if p < i {
        assert(s[p].0 != s[i].0);
    } else if i < p {
        assert(s[i].0 != s[p].0);
    }
}

/// What `put` does to the keys and to every lookup.
pub proof fn lemma_put<T>(s: Seq<(Key, T)>, k: Key, v: T)
    requires
        distinct_keys(s),
    ensures
        distinct_keys(put(s, k, v)),
        lookup(put(s, k, v), k) == Some(v),
        has_key(put(s, k, v), k),
        forall|j: Key| j != k ==> has_key(put(s, k, v), j) == has_key(s, j),
        forall|j: Key| j != k ==> lookup(put(s, k, v), j) == lookup(s, j),
        put(s, k, v).len() == if has_key(s, k) { s.len() } else { s.len() + 1 },
{
    let t = put(s, k, v);
    if has_key(s, k) {
        let p = position(s, k);
        assert(t[p] == (k, v));
        assert forall|a: int, b: int| 0 <= a < b < t.len() implies (#[trigger] t[a]).0 != (
        #[trigger] t[b]).0 by {
            assert(s[a].0 != s[b].0);
        }
        lemma_position_unique(t, p);
        assert forall|j: Key| j != k implies has_key(t, j) == has_key(s, j) && lookup(t, j)
            == lookup(s, j) by {
            if has_key(s, j) {
                let q = position(s, j);
                assert(t[q] == s[q]);
                lemma_position_unique(t, q);
            }
            if has_key(t, j) {
                let q = position(t, j);
                assert(s[q] == t[q]);
                lemma_position_unique(s, q);
            }
        }
    } else {
        let n = s.len() as int;
        assert(t[n] == (k, v));
        assert forall|a: int, b: int| 0 <= a < b < t.len() implies (#[trigger] t[a]).0 != (
        #[trigger] t[b]).0 by {
            if b < n {
                assert(s[a].0 != s[b].0);
            } else {
                assert(t[a] == s[a]);
            }
        }
        lemma_position_unique(t, n);
        assert forall|j: Key| j != k implies has_key(t, j) == has_key(s, j) && lookup(t, j)
            == lookup(s, j) by {
            if has_key(s, j) {
                let q = position(s, j);
                assert(t[q] == s[q]);
                lemma_position_unique(t, q);
            }
            if has_key(t, j) {
                let q = position(t, j);
                assert(q < n);
                assert(s[q] == t[q]);
                lemma_position_unique(s, q);
            }
        }
    }
}

/// What `del` does to the keys and to every lookup.
pub proof fn lemma_del<T>(s: Seq<(Key, T)>, k: Key)
    requires
        distinct_keys(s),
    ensures
        distinct_keys(del(s, k)),
        !has_key(del(s, k), k),
        lookup(del(s, k), k) is None,
        forall|j: Key| j != k ==> has_key(del(s, k), j) == has_key(s, j),
        forall|j: Key| j != k ==> lookup(del(s, k), j) == lookup(s, j),
        del(s, k).len() == if has_key(s, k) { s.len() - 1 } else { s.len() as int },
{
    let t = del(s, k);
    if has_key(s, k) {
        let p = position(s, k);
        assert forall|a: int| 0 <= a < t.len() implies #[trigger] t[a] == s[if a < p { a } else { a + 1 }] by {}
        assert forall|a: int, b: int| 0 <= a < b < t.len() implies (#[trigger] t[a]).0 != (
        #[trigger] t[b]).0 by {
            let a2 = if a < p { a } else { a + 1 };
            let b2 = if b < p { b } else { b + 1 };
            assert(s[a2].0 != s[b2].0);
        }
        assert forall|a: int| 0 <= a < t.len() implies (#[trigger] t[a]).0 != k by {
            let a2 = if a < p { a } else { a + 1 };
            if a2 < p {
                assert(s[a2].0 != s[p].0);
            } else {
                assert(s[p].0 != s[a2].0);
            }
        }
        assert forall|j: Key| j != k implies has_key(t, j) == has_key(s, j) && lookup(t, j)
            == lookup(s, j) by {
            if has_key(s, j) {
                let q = position(s, j);
                let q2 = if q < p { q } else { q - 1 };
                assert(t[q2] == s[q]);
                lemma_position_unique(t, q2);
            }
            if has_key(t, j) {
                let q = position(t, j);
                let q2 = if q < p { q } else { q + 1 };
                assert(s[q2] == t[q]);
                lemma_position_unique(s, q2);
            }
        }
    }
}

} // verus!
