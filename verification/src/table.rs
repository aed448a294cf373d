//! An insertion-ordered table keyed by strings, held in a vector.

use vstd::prelude::*;
use crate::assoc::{
    del, distinct_keys, has_key, Key, lemma_del, lemma_position_unique, lemma_put, lookup,
    position, put,
};

verus! {

/// A finite map from string keys to values that keeps its keys in the order
/// in which they were first inserted.
#[derive(Clone, Debug)]
pub struct Table<V> {
    entries: Vec<(String, V)>,
}

impl<V: View> View for Table<V> {
    type V = Seq<(Key, V::V)>;

    closed spec fn view(&self) -> Seq<(Key, V::V)> {
        Seq::new(self.entries@.len(), |i: int| (self.entries@[i].0@, self.entries@[i].1@))
    }
}

impl<V: View> Table<V> {
    /// The keys are pairwise different.
    pub open spec fn wf(&self) -> bool {
        distinct_keys(self@)
    }

    pub fn new() -> (t: Self)
        ensures
            t.wf(),
            t@ == Seq::<(Key, V::V)>::empty(),
    {
        let t = Table { entries: Vec::new() };
        assert(t@ =~= Seq::<(Key, V::V)>::empty());
        t
    }

    pub fn len(&self) -> (n: usize)
        ensures
            n == self@.len(),
    {
        self.entries.len()
    }

    /// The key at position `i`.
    pub fn key_at(&self, i: usize) -> (k: &String)
        requires
            i < self@.len(),
        ensures
            k@ == self@[i as int].0,
    {
        &self.entries[i].0
    }

    /// The value at position `i`.
    pub fn value_at(&self, i: usize) -> (v: &V)
        requires
            i < self@.len(),
        ensures
            v@ == self@[i as int].1,
    {
        &self.entries[i].1
    }

    /// The position of `k`, if it is a key of the table.
    pub fn index_of(&self, k: &String) -> (r: Option<usize>)
        requires
            self.wf(),
        ensures
            r is Some == has_key(self@, k@),
            r matches Some(i) ==> i < self@.len() && i == position(self@, k@) && self@[i as int].0
                == k@,
    {
        let mut i: usize = 0;
        while i < self.entries.len()
            invariant
                i <= self.entries@.len(),
                self.wf(),
                forall|j: int| 0 <= j < i ==> (#[trigger] self@[j]).0 != k@,
            decreases self.entries@.len() - i,
        {
            if self.entries[i].0 == *k {
                proof {
                    lemma_position_unique(self@, i as int);
                }
                return Some(i);
            }
            i += 1;
        }
        None
    }

    pub fn contains_key(&self, k: &String) -> (b: bool)
        requires
            self.wf(),
        ensures
            b == has_key(self@, k@),
    {
        self.index_of(k).is_some()
    }

    pub fn get(&self, k: &String) -> (r: Option<&V>)
        requires
            self.wf(),
        ensures
            r is Some == has_key(self@, k@),
            r matches Some(v) ==> lookup(self@, k@) == Some(v@),
    {
        match self.index_of(k) {
            Some(i) => Some(&self.entries[i].1),
            None => None,
        }
    }

    /// Stores `v` under `k`: in place when `k` is present, at the end when it
    /// is new.
    pub fn insert(&mut self, k: String, v: V)
        requires
            old(self).wf(),
        ensures
            final(self).wf(),
            final(self)@ == put(old(self)@, k@, v@),
    {
        proof {
            lemma_put(self@, k@, v@);
        }
        match self.index_of(&k) {
            Some(i) => {
                let _ = self.entries.remove(i);
                self.entries.insert(i, (k, v));
                assert(self@ =~= put(old(self)@, k@, v@));
            },
            None => {
                self.entries.push((k, v));
                assert(self@ =~= put(old(self)@, k@, v@));
            },
        }
    }

    /// Puts `v` in the place of the value at position `i` and hands the old
    /// value out; the key stays.
    pub fn swap_value(&mut self, i: usize, v: V) -> (r: V)
        requires
            old(self).wf(),
            i < old(self)@.len(),
        ensures
            final(self).wf(),
            final(self)@ == old(self)@.update(i as int, (old(self)@[i as int].0, v@)),
            final(self)@ == put(old(self)@, old(self)@[i as int].0, v@),
            r@ == old(self)@[i as int].1,
    {
        proof {
            lemma_position_unique(self@, i as int);
            lemma_put(self@, self@[i as int].0, v@);
        }
        let e = self.entries.remove(i);
        self.entries.insert(i, (e.0, v));
        assert(self@ =~= old(self)@.update(i as int, (old(self)@[i as int].0, v@)));
        e.1
    }

    /// Takes the pair of `k` out of the table; the others keep their order.
    pub fn remove(&mut self, k: &String) -> (r: Option<V>)
        requires
            old(self).wf(),
        ensures
            final(self).wf(),
            final(self)@ == del(old(self)@, k@),
            r is Some == has_key(old(self)@, k@),
            r matches Some(v) ==> lookup(old(self)@, k@) == Some(v@),
    {
        proof {
            lemma_del(self@, k@);
        }
        match self.index_of(k) {
            Some(i) => {
                let e = self.entries.remove(i);
                assert(self@ =~= del(old(self)@, k@));
                Some(e.1)
            },
            None => None,
        }
    }
}

} // verus!
