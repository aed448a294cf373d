//! An insertion-ordered set of strings, held in a vector.

use vstd::prelude::*;
use crate::assoc::Key;

verus! {

/// `s` with `k` added at the end, unless it is already a member.
pub open spec fn with_member(s: Seq<Key>, k: Key) -> Seq<Key> {
    if s.contains(k) {
        s
    } else {
        s.push(k)
    }
}

/// `s` without `k`; the other members keep their order.
pub open spec fn without_member(s: Seq<Key>, k: Key) -> Seq<Key> {
    if s.contains(k) {
        s.remove(s.index_of(k))
    } else {
        s
    }
}

/// The members of `s` in order of first occurrence, each once.
pub open spec fn distinct(s: Seq<Key>) -> Seq<Key>
    decreases s.len(),
{
    if s.len() == 0 {
        Seq::empty()
    } else {
        with_member(distinct(s.drop_last()), s.last())
    }
}

/// `distinct` yields no duplicates and the very members of its argument.
pub proof fn lemma_distinct(s: Seq<Key>)
    ensures
        distinct(s).no_duplicates(),
        forall|k: Key| distinct(s).contains(k) == s.contains(k),
        s.no_duplicates() ==> distinct(s) == s,
    decreases s.len(),
{
    if s.len() > 0 {
        let front = s.drop_last();
        lemma_distinct(front);
        let d = distinct(front);
        let r = distinct(s);
        assert forall|k: Key| r.contains(k) == s.contains(k) by {
            if s.contains(k) {
                let i = choose|i: int| 0 <= i < s.len() && s[i] == k;
                if i < s.len() - 1 {
                    assert(front[i] == k);
                    assert(front.contains(k));
                    assert(d.contains(k));
                    let j = choose|j: int| 0 <= j < d.len() && d[j] == k;
                    assert(r[j] == k);
                } else {
                    if !d.contains(k) {
                        assert(r[d.len() as int] == k);
                    }
                }
            }
            if r.contains(k) {
                let j = choose|j: int| 0 <= j < r.len() && r[j] == k;
                if j < d.len() {
                    assert(d[j] == k);
                    assert(d.contains(k));
                    assert(front.contains(k));
                    let i = choose|i: int| 0 <= i < front.len() && front[i] == k;
                    assert(s[i] == k);
                } else {
                    assert(s[s.len() - 1] == k);
                }
            }
        }
        if s.no_duplicates() {
            assert(front.no_duplicates());
            if front.contains(s.last()) {
                let i = choose|i: int| 0 <= i < front.len() && front[i] == s.last();
                assert(s[i] == s[s.len() - 1]);
            }
            assert(r =~= s);
        }
    }
}

/// What `without_member` leaves behind.
pub proof fn lemma_without_member(s: Seq<Key>, k: Key)
    requires
        s.no_duplicates(),
    ensures
        without_member(s, k).no_duplicates(),
        !without_member(s, k).contains(k),
        forall|j: Key| j != k ==> without_member(s, k).contains(j) == s.contains(j),
{
    let t = without_member(s, k);
    if s.contains(k) {
        let p = s.index_of(k);
        assert forall|a: int| 0 <= a < t.len() implies #[trigger] t[a] == s[if a < p { a } else { a + 1 }] by {}
        assert forall|j: Key| j != k implies t.contains(j) == s.contains(j) by {
            if s.contains(j) {
                let q = choose|q: int| 0 <= q < s.len() && s[q] == j;
                let q2 = if q < p { q } else { q - 1 };
                assert(t[q2] == j);
            }
            if t.contains(j) {
                let q = choose|q: int| 0 <= q < t.len() && t[q] == j;
                assert(s[if q < p { q } else { q + 1 }] == j);
            }
        }
        if t.contains(k) {
            let q = choose|q: int| 0 <= q < t.len() && t[q] == k;
            assert(s[if q < p { q } else { q + 1 }] == s[p]);
        }
    }
}

/// A set of strings that keeps its members in the order in which they were
/// first inserted.
#[derive(Clone, Debug)]
pub struct StrSet {
    items: Vec<String>,
}

impl View for StrSet {
    type V = Seq<Key>;

    closed spec fn view(&self) -> Seq<Key> {
        Seq::new(self.items@.len(), |i: int| self.items@[i]@)
    }
}

impl StrSet {
    /// No member occurs twice.
    pub open spec fn wf(&self) -> bool {
        self@.no_duplicates()
    }

    pub fn new() -> (s: Self)
        ensures
            s.wf(),
            s@ == Seq::<Key>::empty(),
    {
        let s = StrSet { items: Vec::new() };
        assert(s@ =~= Seq::<Key>::empty());
        s
    }

    pub fn len(&self) -> (n: usize)
        ensures
            n == self@.len(),
    {
        self.items.len()
    }

    pub fn is_empty(&self) -> (b: bool)
        ensures
            b == (self@.len() == 0),
    {
        self.items.len() == 0
    }

    /// The member at position `i`.
    pub fn member_at(&self, i: usize) -> (k: &String)
        requires
            i < self@.len(),
        ensures
            k@ == self@[i as int],
    {
        &self.items[i]
    }

    fn find(&self, k: &String) -> (r: Option<usize>)
        ensures
            r is Some == self@.contains(k@),
            r matches Some(i) ==> i < self@.len() && self@[i as int] == k@,
    {
        let mut i: usize = 0;
        while i < self.items.len()
            invariant
                i <= self.items@.len(),
                forall|j: int| 0 <= j < i ==> self@[j] != k@,
            decreases self.items@.len() - i,
        {
            if self.items[i] == *k {
                assert(self@[i as int] == k@);
                return Some(i);
            }
            i += 1;
        }
        None
    }

    pub fn contains(&self, k: &String) -> (b: bool)
        ensures
            b == self@.contains(k@),
    {
        self.find(k).is_some()
    }

    /// Adds `k` unless it is a member already; tells whether it was new.
    pub fn insert(&mut self, k: String) -> (added: bool)
        requires
            old(self).wf(),
        ensures
            final(self).wf(),
            final(self)@ == with_member(old(self)@, k@),
            added == !old(self)@.contains(k@),
    {
        if self.contains(&k) {
            false
        } else {
            self.items.push(k);
            assert(self@ =~= old(self)@.push(k@));
            true
        }
    }

    /// Removes `k` if it is a member; tells whether it was.
    pub fn remove(&mut self, k: &String) -> (removed: bool)
        requires
            old(self).wf(),
        ensures
            final(self).wf(),
            final(self)@ == without_member(old(self)@, k@),
            removed == old(self)@.contains(k@),
    {
        proof {
            lemma_without_member(self@, k@);
        }
        match self.find(k) {
            Some(i) => {
                let ghost p = old(self)@.index_of(k@);
                assert(p == i) by {
                    if p != i as int {
                        assert(old(self)@[p] == old(self)@[i as int]);
                    }
                }
                let _ = self.items.remove(i);
                assert(self@ =~= old(self)@.remove(i as int));
                true
            },
            None => false,
        }
    }

    /// The members as a vector of their own, in order.
    pub fn to_vec(&self) -> (v: Vec<String>)
        ensures
            v@.len() == self@.len(),
            forall|i: int| 0 <= i < v@.len() ==> (#[trigger] v@[i])@ == self@[i],
    {
        let mut v: Vec<String> = Vec::new();
        let mut i: usize = 0;
        while i < self.items.len()
            invariant
                i <= self.items@.len(),
                v@.len() == i,
                forall|j: int| 0 <= j < i ==> (#[trigger] v@[j])@ == self@[j],
            decreases self.items@.len() - i,
        {
            v.push(self.items[i].clone());
            i += 1;
        }
        v
    }

    /// The set of the strings in `v`, in order of first occurrence.
    pub fn from_vec(v: &Vec<String>) -> (s: Self)
        ensures
            s.wf(),
            s@ == distinct(Seq::new(v@.len(), |i: int| v@[i]@)),
    {
        let ghost all = Seq::new(v@.len(), |i: int| v@[i]@);
        let mut s = StrSet::new();
        let mut i: usize = 0;
        assert(all.take(0) =~= Seq::<Key>::empty());
        while i < v.len()
            invariant
                i <= v@.len(),
                all == Seq::new(v@.len(), |i: int| v@[i]@),
                s.wf(),
                s@ == distinct(all.take(i as int)),
            decreases v@.len() - i,
        {
            proof {
                assert(all.take(i + 1).drop_last() =~= all.take(i as int));
                assert(all.take(i + 1).last() == v@[i as int]@);
            }
            let _ = s.insert(v[i].clone());
            i += 1;
        }
        assert(all.take(i as int) =~= all);
        s
    }

    /// A copy with the same members in the same order.
    pub fn duplicate(&self) -> (s: Self)
        ensures
            s@ == self@,
    {
        let s = StrSet { items: self.to_vec() };
        assert(s@ =~= self@);
        s
    }
}

} // verus!
