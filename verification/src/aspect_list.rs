//! Aspect lists: for each entry, the set of aspect hashes known for it, with
//! the set algebra that gossip reconciliation needs.

use vstd::prelude::*;
use crate::assoc::{
    distinct_keys, has_key, Key, lemma_position_unique, lemma_put, lookup, position, put,
};
use crate::str_set::{StrSet, with_member};
use crate::table::Table;

verus! {

/// The model of an aspect list: entries in insertion order, each with its
/// aspects in insertion order.
pub type Aspects = Seq<(Key, Seq<Key>)>;

/// The aspects listed for `e`; none when `e` is not an entry of `a`.
pub open spec fn aspects_of(a: Aspects, e: Key) -> Seq<Key> {
    match lookup(a, e) {
        Some(xs) => xs,
        None => Seq::empty(),
    }
}

/// Whether `a` lists aspect `x` for entry `e`.
pub open spec fn holds(a: Aspects, e: Key, x: Key) -> bool {
    aspects_of(a, e).contains(x)
}

/// Entries are distinct, and so are the aspects of each entry.
pub open spec fn well_formed(a: Aspects) -> bool {
    &&& distinct_keys(a)
    &&& forall|i: int| 0 <= i < a.len() ==> (#[trigger] a[i]).1.no_duplicates()
}

/// `a` with aspect `x` listed for entry `e`.
pub open spec fn with_aspect(a: Aspects, e: Key, x: Key) -> Aspects {
    put(a, e, with_member(aspects_of(a, e), x))
}

/// `a` with all of `xs` listed for entry `e`, which becomes an entry even when
/// `xs` is empty.
pub open spec fn with_aspects(a: Aspects, e: Key, xs: Seq<Key>) -> Aspects
    decreases xs.len(),
{
    if xs.len() == 0 {
        put(a, e, aspects_of(a, e))
    } else {
        with_aspect(with_aspects(a, e, xs.drop_last()), e, xs.last())
    }
}

/// The list built from `pairs`, taken from left to right.
pub open spec fn from_pairs(pairs: Aspects) -> Aspects
    decreases pairs.len(),
{
    if pairs.len() == 0 {
        Seq::empty()
    } else {
        with_aspects(from_pairs(pairs.drop_last()), pairs.last().0, pairs.last().1)
    }
}

/// The members of `xs` that are not in `ys`, in the order of `xs`.
pub open spec fn residue(xs: Seq<Key>, ys: Seq<Key>) -> Seq<Key>
    decreases xs.len(),
{
    if xs.len() == 0 {
        Seq::empty()
    } else if ys.contains(xs.last()) {
        residue(xs.drop_last(), ys)
    } else {
        residue(xs.drop_last(), ys).push(xs.last())
    }
}

/// For every entry of `a`, in order, the aspects that `a` lists and `b` does
/// not; an entry with nothing left is omitted.
pub open spec fn diff(a: Aspects, b: Aspects) -> Aspects
    decreases a.len(),
{
    if a.len() == 0 {
        Seq::empty()
    } else {
        let rest = diff(a.drop_last(), b);
        let left = residue(a.last().1, aspects_of(b, a.last().0));
        if left.len() == 0 {
            rest
        } else {
            rest.push((a.last().0, left))
        }
    }
}

/// The entries of `a` whose key is `e`, with their aspects.
pub open spec fn only_entry(a: Aspects, e: Key) -> Aspects {
    match lookup(a, e) {
        Some(xs) => seq![(e, xs)],
        None => Seq::empty(),
    }
}

/// The pairs of `a`, in order, that `keep` marks.
pub open spec fn masked(a: Aspects, keep: Seq<bool>) -> Aspects
    recommends
        keep.len() == a.len(),
    decreases a.len(),
{
    if a.len() == 0 || keep.len() != a.len() {
        Seq::empty()
    } else if keep.last() {
        masked(a.drop_last(), keep.drop_last()).push(a.last())
    } else {
        masked(a.drop_last(), keep.drop_last())
    }
}

/// Whether `r` is what is left of `a` when `predicate`, asked for each entry
/// of `a` in turn with the key `keys[i]`, answered `keep[i]`.
pub open spec fn filtered_as<F: Fn(&String) -> bool>(
    a: Aspects,
    r: Aspects,
    predicate: F,
    keep: Seq<bool>,
    keys: Seq<String>,
) -> bool {
    &&& keep.len() == a.len()
    &&& keys.len() == a.len()
    &&& r == masked(a, keep)
    &&& forall|i: int|
        0 <= i < a.len() ==> (#[trigger] keys[i])@ == a[i].0 && predicate.ensures(
            (&keys[i],),
            keep[i],
        )
}

/// The identifiers of `xs` with commas between them.
pub open spec fn joined(xs: Seq<Key>) -> Seq<char>
    decreases xs.len(),
{
    if xs.len() == 0 {
        Seq::empty()
    } else if xs.len() == 1 {
        xs[0]
    } else {
        joined(xs.drop_last()) + ", "@ + xs.last()
    }
}

/// The list in words: a line for each entry, in order, with the entry, a
/// colon, and the aspects of the entry with commas between them.
pub open spec fn rendered(a: Aspects) -> Seq<char>
    decreases a.len(),
{
    if a.len() == 0 {
        Seq::empty()
    } else {
        rendered(a.drop_last()) + a.last().0 + ": "@ + joined(a.last().1) + "\n"@
    }
}

/// The members of a residue are the members of the first set that the second
/// lacks, each once.
pub proof fn lemma_residue(xs: Seq<Key>, ys: Seq<Key>)
    ensures
        forall|k: Key| #[trigger]
            residue(xs, ys).contains(k) == (xs.contains(k) && !ys.contains(k)),
        xs.no_duplicates() ==> residue(xs, ys).no_duplicates(),
        residue(xs, ys).len() <= xs.len(),
    decreases xs.len(),
{
    if xs.len() > 0 {
        let front = xs.drop_last();
        let last = xs.last();
        lemma_residue(front, ys);
        let rf = residue(front, ys);
        let r = residue(xs, ys);
        assert forall|k: Key| r.contains(k) == (xs.contains(k) && !ys.contains(k)) by {
            if r.contains(k) {
                let j = choose|j: int| 0 <= j < r.len() && r[j] == k;
                if j < rf.len() {
                    assert(rf[j] == k);
                    assert(rf.contains(k));
                    assert(front.contains(k));
                    let i = choose|i: int| 0 <= i < front.len() && front[i] == k;
                    assert(xs[i] == k);
                } else {
                    assert(xs[xs.len() - 1] == k);
                }
            }
            if xs.contains(k) && !ys.contains(k) {
                let i = choose|i: int| 0 <= i < xs.len() && xs[i] == k;
                if i < xs.len() - 1 {
                    assert(front[i] == k);
                    assert(front.contains(k));
                    assert(rf.contains(k));
                    let j = choose|j: int| 0 <= j < rf.len() && rf[j] == k;
                    assert(r[j] == k);
                } else {
                    assert(r[rf.len() as int] == k);
                }
            }
        }
        if xs.no_duplicates() {
            assert(front.no_duplicates());
            if !ys.contains(last) {
                if rf.contains(last) {
                    assert(front.contains(last));
                    let i = choose|i: int| 0 <= i < front.len() && front[i] == last;
                    assert(xs[i] == xs[xs.len() - 1]);
                }
            }
        }
    }
}

/// Nothing of a set is left once the set itself is taken away.
pub proof fn lemma_residue_self(xs: Seq<Key>)
    ensures
        residue(xs, xs) == Seq::<Key>::empty(),
{
    lemma_residue(xs, xs);
    let r = residue(xs, xs);
    if r.len() > 0 {
        assert(r.contains(r[0]));
    }
    assert(r =~= Seq::<Key>::empty());
}

/// What a difference holds: every entry of it is an entry of `a` with a
/// non-empty residue, in the order of `a`, and it lists exactly the aspects
/// that `a` lists and `b` does not.
pub proof fn lemma_diff(a: Aspects, b: Aspects)
    requires
        well_formed(a),
    ensures
        well_formed(diff(a, b)),
        diff(a, b).len() <= a.len(),
        forall|e: Key| #[trigger]
            has_key(diff(a, b), e) == (has_key(a, e) && residue(
                aspects_of(a, e),
                aspects_of(b, e),
            ).len() > 0),
        forall|e: Key| #[trigger]
            aspects_of(diff(a, b), e) == residue(aspects_of(a, e), aspects_of(b, e)),
        forall|e: Key, x: Key| #[trigger]
            holds(diff(a, b), e, x) == (holds(a, e, x) && !holds(b, e, x)),
    decreases a.len(),
{
    let d = diff(a, b);
    if a.len() == 0 {
        assert forall|e: Key| #[trigger]
            aspects_of(d, e) == residue(aspects_of(a, e), aspects_of(b, e)) by {}
    } else {
        let front = a.drop_last();
        let n = front.len() as int;
        let le = a.last().0;
        let left = residue(a.last().1, aspects_of(b, le));
        assert(well_formed(front)) by {
            assert forall|i: int, j: int| 0 <= i < j < front.len() implies (#[trigger] front[i]).0
                != (#[trigger] front[j]).0 by {
                assert(a[i].0 != a[j].0);
            }
            assert forall|i: int| 0 <= i < front.len() implies (#[trigger] front[i]).1.no_duplicates() by {
                assert(a[i].1.no_duplicates());
            }
        }
        lemma_diff(front, b);
        let df = diff(front, b);
        lemma_residue(a.last().1, aspects_of(b, le));
        lemma_position_unique(a, n);
        assert(!has_key(front, le)) by {
            if has_key(front, le) {
                let p = position(front, le);
                assert(a[p].0 != a[n].0);
            }
        }
        assert(!has_key(df, le));
        assert forall|e: Key| e != le implies lookup(front, e) == lookup(a, e) && has_key(front, e)
            == has_key(a, e) by {
            if has_key(a, e) {
                let p = position(a, e);
                assert(front[p] == a[p]);
                lemma_position_unique(front, p);
                lemma_position_unique(a, p);
            }
            if has_key(front, e) {
                let p = position(front, e);
                assert(a[p] == front[p]);
                lemma_position_unique(a, p);
                lemma_position_unique(front, p);
            }
        }
        if left.len() == 0 {
            assert(d == df);
            assert(aspects_of(df, le) =~= Seq::<Key>::empty());
        } else {
            assert(d == df.push((le, left)));
            assert(distinct_keys(d)) by {
                assert forall|i: int, j: int| 0 <= i < j < d.len() implies (#[trigger] d[i]).0 != (
                #[trigger] d[j]).0 by {
                    if j < df.len() {
                        assert(df[i].0 != df[j].0);
                    } else {
                        assert(d[i] == df[i]);
                    }
                }
            }
            assert(well_formed(d)) by {
                assert forall|i: int| 0 <= i < d.len() implies (#[trigger] d[i]).1.no_duplicates() by {
                    if i < df.len() {
                        assert(d[i] == df[i]);
                    }
                }
            }
            lemma_position_unique(d, df.len() as int);
            assert forall|e: Key| e != le implies lookup(d, e) == lookup(df, e) && has_key(d, e)
                == has_key(df, e) by {
                if has_key(df, e) {
                    let p = position(df, e);
                    assert(d[p] == df[p]);
                    lemma_position_unique(d, p);
                    lemma_position_unique(df, p);
                }
                if has_key(d, e) {
                    let p = position(d, e);
                    assert(p < df.len());
                    assert(df[p] == d[p]);
                    lemma_position_unique(df, p);
                    lemma_position_unique(d, p);
                }
            }
        }
        assert forall|e: Key| #[trigger]
            has_key(d, e) == (has_key(a, e) && residue(aspects_of(a, e), aspects_of(b, e)).len()
                > 0) by {
            if e != le {
                assert(has_key(df, e) == (has_key(front, e) && residue(
                    aspects_of(front, e),
                    aspects_of(b, e),
                ).len() > 0));
            }
        }
        assert forall|e: Key| #[trigger]
            aspects_of(d, e) == residue(aspects_of(a, e), aspects_of(b, e)) by {
            if e != le {
                assert(aspects_of(df, e) == residue(aspects_of(front, e), aspects_of(b, e)));
            }
        }
    }
    assert forall|e: Key, x: Key| #[trigger]
        holds(d, e, x) == (holds(a, e, x) && !holds(b, e, x)) by {
        assert(aspects_of(d, e) == residue(aspects_of(a, e), aspects_of(b, e)));
        lemma_residue(aspects_of(a, e), aspects_of(b, e));
    }
}

/// The difference of a list with itself is empty.
pub proof fn lemma_diff_self(a: Aspects)
    requires
        distinct_keys(a),
    ensures
        diff(a, a) == Seq::<(Key, Seq<Key>)>::empty(),
    decreases a.len(),
{
    lemma_diff_prefix_self(a, a.len() as int);
    assert(a.take(a.len() as int) =~= a);
}

/// The difference of a prefix of a list with the whole list is empty.
proof fn lemma_diff_prefix_self(a: Aspects, n: int)
    requires
        distinct_keys(a),
        0 <= n <= a.len(),
    ensures
        diff(a.take(n), a) == Seq::<(Key, Seq<Key>)>::empty(),
    decreases n,
{
    if n > 0 {
        lemma_diff_prefix_self(a, n - 1);
        let p = a.take(n);
        assert(p.drop_last() =~= a.take(n - 1));
        lemma_position_unique(a, n - 1);
        assert(aspects_of(a, p.last().0) == p.last().1);
        lemma_residue_self(p.last().1);
    }
}

/// For each entry, the set of aspect hashes known for it.
#[derive(Clone, Debug)]
pub struct AspectList {
    entries: Table<StrSet>,
}

impl View for AspectList {
    type V = Aspects;

    closed spec fn view(&self) -> Aspects {
        self.entries@
    }
}

/// The set of the members of `xs` that `ys` lacks; all of `xs` when `ys` is
/// absent.
fn residue_of(xs: &StrSet, ys: Option<&StrSet>) -> (r: StrSet)
    requires
        xs.wf(),
    ensures
        r.wf(),
        r@ == residue(
            xs@,
            match ys {
                Some(s) => s@,
                None => Seq::empty(),
            },
        ),
{
    let ghost other: Seq<Key> = match ys {
        Some(s) => s@,
        None => Seq::empty(),
    };
    let mut r = StrSet::new();
    let mut j: usize = 0;
    assert(xs@.take(0) =~= Seq::<Key>::empty());
    while j < xs.len()
        invariant
            j <= xs@.len(),
            xs.wf(),
            r.wf(),
            other == match ys {
                Some(s) => s@,
                None => Seq::<Key>::empty(),
            },
            r@ == residue(xs@.take(j as int), other),
        decreases xs@.len() - j,
    {
        let x = xs.member_at(j);
        proof {
            assert(xs@.take(j + 1).drop_last() =~= xs@.take(j as int));
            assert(xs@.take(j + 1).last() == x@);
            lemma_residue(xs@.take(j as int), other);
            if xs@.take(j as int).contains(x@) {
                let i = choose|i: int| 0 <= i < j && xs@.take(j as int)[i] == x@;
                assert(xs@[i] == xs@[j as int]);
            }
        }
        let listed = match ys {
            Some(s) => s.contains(x),
            None => false,
        };
        if !listed {
            let _ = r.insert(x.clone());
        }
        j += 1;
    }
    assert(xs@.take(j as int) =~= xs@);
    r
}

impl AspectList {
    /// Entries are distinct, and so are the aspects of each entry.
    pub open spec fn wf(&self) -> bool {
        well_formed(self@)
    }

    pub fn new() -> (l: Self)
        ensures
            l.wf(),
            l@ == Seq::<(Key, Seq<Key>)>::empty(),
    {
        AspectList { entries: Table::new() }
    }

    /// The number of entries.
    pub fn len(&self) -> (n: usize)
        ensures
            n == self@.len(),
    {
        self.entries.len()
    }

    /// The entry at position `i`.
    pub fn entry_at(&self, i: usize) -> (e: &String)
        requires
            i < self@.len(),
        ensures
            e@ == self@[i as int].0,
    {
        self.entries.key_at(i)
    }

    /// The aspects of the entry at position `i`.
    pub fn aspects_at(&self, i: usize) -> (xs: &StrSet)
        requires
            self.wf(),
            i < self@.len(),
        ensures
            xs@ == self@[i as int].1,
            xs.wf(),
    {
        self.entries.value_at(i)
    }

    /// The entries, in order.
    pub fn entry_addresses(&self) -> (v: Vec<String>)
        ensures
            v@.len() == self@.len(),
            forall|i: int| 0 <= i < v@.len() ==> (#[trigger] v@[i])@ == self@[i].0,
    {
        let mut v: Vec<String> = Vec::new();
        let mut i: usize = 0;
        while i < self.entries.len()
            invariant
                i <= self@.len(),
                v@.len() == i,
                forall|j: int| 0 <= j < i ==> (#[trigger] v@[j])@ == self@[j].0,
            decreases self@.len() - i,
        {
            v.push(self.entries.key_at(i).clone());
            i += 1;
        }
        v
    }

    /// The aspects listed for `e`, if `e` is an entry.
    pub fn per_entry(&self, e: &String) -> (r: Option<&StrSet>)
        requires
            self.wf(),
        ensures
            r is Some == has_key(self@, e@),
            r matches Some(xs) ==> lookup(self@, e@) == Some(xs@) && xs.wf(),
    {
        match self.entries.index_of(e) {
            Some(i) => {
                proof {
                    lemma_position_unique(self@, i as int);
                }
                Some(self.entries.value_at(i))
            },
            None => None,
        }
    }

    /// Whether aspect `x` is listed for entry `e`.
    pub fn contains(&self, e: &String, x: &String) -> (b: bool)
        requires
            self.wf(),
        ensures
            b == holds(self@, e@, x@),
    {
        match self.per_entry(e) {
            Some(xs) => xs.contains(x),
            None => false,
        }
    }

    /// Lists aspect `x` for entry `e`; a second insertion changes nothing.
    pub fn add(&mut self, e: String, x: String)
        requires
            old(self).wf(),
        ensures
            final(self).wf(),
            final(self)@ == with_aspect(old(self)@, e@, x@),
    {
        match self.entries.index_of(&e) {
            Some(i) => {
                proof {
                    lemma_position_unique(self@, i as int);
                }
                let mut xs = self.entries.swap_value(i, StrSet::new());
                let _ = xs.insert(x);
                let _ = self.entries.swap_value(i, xs);
                assert(self@ =~= with_aspect(old(self)@, e@, x@));
            },
            None => {
                let mut xs = StrSet::new();
                let _ = xs.insert(x);
                self.entries.insert(e, xs);
            },
        }
        proof {
            lemma_with_aspect(old(self)@, e@, x@);
        }
    }

    /// Lists all of `xs` for entry `e`, which becomes an entry even when `xs`
    /// is empty.
    pub fn add_all(&mut self, e: &String, xs: &Vec<String>)
        requires
            old(self).wf(),
        ensures
            final(self).wf(),
            final(self)@ == with_aspects(old(self)@, e@, Seq::new(xs@.len(), |i: int| xs@[i]@)),
    {
        let ghost all = Seq::new(xs@.len(), |i: int| xs@[i]@);
        if !self.entries.contains_key(e) {
            self.entries.insert(e.clone(), StrSet::new());
        }
        proof {
            assert(all.take(0) =~= Seq::<Key>::empty());
            lemma_put(old(self)@, e@, aspects_of(old(self)@, e@));
            if has_key(old(self)@, e@) {
                let p = position(old(self)@, e@);
                lemma_position_unique(old(self)@, p);
                assert(self@ =~= put(old(self)@, e@, aspects_of(old(self)@, e@)));
            }
            assert(well_formed(self@)) by {
                assert forall|i: int| 0 <= i < self@.len() implies (#[trigger] self@[i]).1.no_duplicates() by {
                    if i < old(self)@.len() {
                        assert(old(self)@[i].1.no_duplicates());
                    }
                }
            }
        }
        let mut j: usize = 0;
        while j < xs.len()
            invariant
                j <= xs@.len(),
                all == Seq::new(xs@.len(), |i: int| xs@[i]@),
                self.wf(),
                self@ == with_aspects(old(self)@, e@, all.take(j as int)),
            decreases xs@.len() - j,
        {
            proof {
                assert(all.take(j + 1).drop_last() =~= all.take(j as int));
                assert(all.take(j + 1).last() == xs@[j as int]@);
            }
            self.add(e.clone(), xs[j].clone());
            j += 1;
        }
        assert(all.take(j as int) =~= all);
    }

    /// The list built from `pairs`, taken from left to right: an entry that
    /// occurs twice has its aspects merged, an aspect that occurs twice under
    /// one entry is listed once.
    pub fn from_pairs(pairs: &Vec<(String, Vec<String>)>) -> (l: Self)
        ensures
            l.wf(),
            l@ == from_pairs(pairs_view(pairs@)),
    {
        let ghost all = pairs_view(pairs@);
        let mut l = AspectList::new();
        let mut i: usize = 0;
        assert(all.take(0) =~= Seq::<(Key, Seq<Key>)>::empty());
        while i < pairs.len()
            invariant
                i <= pairs@.len(),
                all == pairs_view(pairs@),
                l.wf(),
                l@ == from_pairs(all.take(i as int)),
            decreases pairs@.len() - i,
        {
            proof {
                assert(all.take(i + 1).drop_last() =~= all.take(i as int));
                assert(all.take(i + 1).last() == all[i as int]);
            }
            l.add_all(&pairs[i].0, &pairs[i].1);
            i += 1;
        }
        assert(all.take(i as int) =~= all);
        l
    }

    /// The pairs of the list, in order, as plain vectors.
    pub fn to_pairs(&self) -> (pairs: Vec<(String, Vec<String>)>)
        requires
            self.wf(),
        ensures
            pairs_view(pairs@) == self@,
    {
        let mut pairs: Vec<(String, Vec<String>)> = Vec::new();
        let mut i: usize = 0;
        while i < self.entries.len()
            invariant
                i <= self@.len(),
                self.wf(),
                pairs@.len() == i,
                forall|j: int| 0 <= j < i ==> #[trigger] pairs_view(pairs@)[j] == self@[j],
            decreases self@.len() - i,
        {
            let xs = self.entries.value_at(i).to_vec();
            let ghost before = pairs@;
            pairs.push((self.entries.key_at(i).clone(), xs));
            proof {
                assert forall|j: int| 0 <= j <= i implies #[trigger] pairs_view(pairs@)[j] == self@[j] by {
                    if j < i {
                        assert(pairs_view(before)[j] == self@[j]);
                        assert(pairs@[j] == before[j]);
                    } else {
                        assert(pairs_view(pairs@)[j].1 =~= self@[j].1);
                    }
                }
            }
            i += 1;
        }
        assert(pairs_view(pairs@) =~= self@);
        pairs
    }

    /// Stores the aspects `xs` under entry `e`, in place of what was listed
    /// for `e` before.
    pub fn put_entry(&mut self, e: String, xs: StrSet)
        requires
            old(self).wf(),
            xs.wf(),
        ensures
            final(self).wf(),
            final(self)@ == put(old(self)@, e@, xs@),
    {
        proof {
            lemma_put(self@, e@, xs@);
            let t = put(self@, e@, xs@);
            assert forall|i: int| 0 <= i < t.len() implies (#[trigger] t[i]).1.no_duplicates() by {
                if has_key(self@, e@) {
                    if i != position(self@, e@) {
                        assert(t[i] == self@[i]);
                    }
                } else if i < self@.len() {
                    assert(t[i] == self@[i]);
                }
            }
        }
        self.entries.insert(e, xs);
    }

    /// For every entry of `self`, the aspects that `self` lists and `other`
    /// does not; an entry with nothing left is omitted.
    pub fn diff(&self, other: &AspectList) -> (d: AspectList)
        requires
            self.wf(),
            other.wf(),
        ensures
            d.wf(),
            d@ == diff(self@, other@),
    {
        let mut d = AspectList::new();
        let mut i: usize = 0;
        assert(self@.take(0) =~= Seq::<(Key, Seq<Key>)>::empty());
        proof {
            lemma_take_well_formed(self@, 0);
            lemma_diff(self@.take(0), other@);
        }
        while i < self.entries.len()
            invariant
                i <= self@.len(),
                self.wf(),
                other.wf(),
                d.wf(),
                d@ == diff(self@.take(i as int), other@),
            decreases self@.len() - i,
        {
            let e = self.entries.key_at(i);
            let xs = self.entries.value_at(i);
            let left = residue_of(xs, other.per_entry(e));
            proof {
                assert(self@.take(i + 1).drop_last() =~= self@.take(i as int));
                assert(self@.take(i + 1).last() == self@[i as int]);
                lemma_take_well_formed(self@, i + 1);
                lemma_diff(self@.take(i + 1), other@);
            }
            if !left.is_empty() {
                proof {
                    let t = diff(self@.take(i + 1), other@);
                    assert(t == d@.push((e@, left@)));
                    lemma_position_unique(t, d@.len() as int);
                    lemma_absent_before(t, d@.len() as int);
                    assert(t.take(d@.len() as int) =~= d@);
                    assert(!has_key(d@, e@));
                    assert(t =~= put(d@, e@, left@));
                }
                d.entries.insert(e.clone(), left);
            }
            i += 1;
        }
        assert(self@.take(i as int) =~= self@);
        d
    }

    /// The list restricted to entry `e`.
    pub fn restricted_to(&self, e: &String) -> (r: AspectList)
        requires
            self.wf(),
        ensures
            r.wf(),
            r@ == only_entry(self@, e@),
    {
        let mut r = AspectList::new();
        match self.per_entry(e) {
            Some(xs) => {
                r.entries.insert(e.clone(), xs.duplicate());
                assert(r@ =~= only_entry(self@, e@));
                assert(r.wf()) by {
                    assert forall|i: int| 0 <= i < r@.len() implies (#[trigger] r@[i]).1.no_duplicates() by {
                        assert(r@[i].1 == xs@);
                    }
                }
            },
            None => {},
        }
        r
    }

    /// The list restricted to the entries that `predicate` accepts. The
    /// predicate is asked once for each entry, in order.
    pub fn filtered_by_entry_hash<F: Fn(&String) -> bool>(&self, predicate: F) -> (r: AspectList)
        requires
            self.wf(),
            forall|e: &String| predicate.requires((e,)),
        ensures
            r.wf(),
            exists|keep: Seq<bool>, keys: Seq<String>|
                filtered_as(self@, r@, predicate, keep, keys),
    {
        let mut r = AspectList::new();
        let ghost mut keep: Seq<bool> = Seq::empty();
        let ghost mut keys: Seq<String> = Seq::empty();
        let mut i: usize = 0;
        assert(self@.take(0) =~= Seq::<(Key, Seq<Key>)>::empty());
        while i < self.entries.len()
            invariant
                i <= self@.len(),
                self.wf(),
                r.wf(),
                keep.len() == i,
                keys.len() == i,
                r@ == masked(self@.take(i as int), keep),
                forall|e: Key| has_key(r@, e) ==> has_key(self@.take(i as int), e),
                forall|k: int|
                    0 <= k < i ==> (#[trigger] keys[k])@ == self@[k].0 && predicate.ensures(
                        (&keys[k],),
                        keep[k],
                    ),
                forall|e: &String| predicate.requires((e,)),
            decreases self@.len() - i,
        {
            let e = self.entries.key_at(i);
            let accepted = predicate(e);
            let ghost rb = r@;
            let ghost keep_before = keep;
            proof {
                keep = keep.push(accepted);
                keys = keys.push(*e);
                assert(self@.take(i + 1).drop_last() =~= self@.take(i as int));
                assert(keep.drop_last() =~= keep_before);
                assert(self@.take(i + 1).last() == self@[i as int]);
                lemma_absent_before(self@, i as int);
                assert(!has_key(rb, e@));
                lemma_put(rb, e@, self@[i as int].1);
            }
            if accepted {
                r.put_entry(e.clone(), self.entries.value_at(i).duplicate());
            }
            proof {
                assert forall|f: Key| has_key(r@, f) implies has_key(self@.take(i + 1), f) by {
                    if f != e@ {
                        assert(has_key(rb, f));
                        let p = position(self@.take(i as int), f);
                        assert(self@.take(i + 1)[p].0 == f);
                    } else {
                        assert(self@.take(i + 1)[i as int].0 == f);
                    }
                }
            }
            i += 1;
        }
        assert(self@.take(i as int) =~= self@);
        assert(filtered_as(self@, r@, predicate, keep, keys));
        r
    }

    /// The list in words, for a log: a line for each entry, in order, with
    /// the entry, a colon, and the aspects of the entry with commas between
    /// them.
    pub fn pretty_string(&self) -> (text: String)
        requires
            self.wf(),
        ensures
            text@ == rendered(self@),
    {
        let mut text = String::new();
        let mut i: usize = 0;
        assert(self@.take(0) =~= Seq::<(Key, Seq<Key>)>::empty());
        while i < self.entries.len()
            invariant
                i <= self@.len(),
                self.wf(),
                text@ == rendered(self@.take(i as int)),
            decreases self@.len() - i,
        {
            proof {
                assert(self@.take(i + 1).drop_last() =~= self@.take(i as int));
                assert(self@.take(i + 1).last() == self@[i as int]);
            }
            text.append(self.entries.key_at(i).as_str());
            text.append(": ");
            let xs = self.entries.value_at(i);
            let ghost head = text@;
            let mut j: usize = 0;
            assert(xs@.take(0) =~= Seq::<Key>::empty());
            while j < xs.len()
                invariant
                    j <= xs@.len(),
                    text@ == head + joined(xs@.take(j as int)),
                decreases xs@.len() - j,
            {
                proof {
                    assert(xs@.take(j + 1).drop_last() =~= xs@.take(j as int));
                    assert(xs@.take(j + 1).last() == xs@[j as int]);
                }
                if j > 0 {
                    text.append(", ");
                }
                text.append(xs.member_at(j).as_str());
                assert(text@ =~= head + joined(xs@.take(j + 1)));
                j += 1;
            }
            assert(xs@.take(j as int) =~= xs@);
            text.append("\n");
            assert(text@ =~= rendered(self@.take(i + 1)));
            i += 1;
        }
        assert(self@.take(i as int) =~= self@);
        text
    }

    /// A copy with the same entries and aspects in the same order.
    pub fn duplicate(&self) -> (r: AspectList)
        requires
            self.wf(),
        ensures
            r.wf(),
            r@ == self@,
    {
        let mut r = AspectList::new();
        let mut i: usize = 0;
        while i < self.entries.len()
            invariant
                i <= self@.len(),
                self.wf(),
                r.wf(),
                r@ == self@.take(i as int),
            decreases self@.len() - i,
        {
            proof {
                lemma_take_well_formed(self@, i + 1);
                let t = self@.take(i + 1);
                assert(t =~= r@.push(self@[i as int]));
                lemma_position_unique(t, i as int);
                lemma_absent_before(t, i as int);
                assert(t.take(i as int) =~= r@);
                assert(!has_key(r@, self@[i as int].0));
            }
            r.entries.insert(self.entries.key_at(i).clone(), self.entries.value_at(i).duplicate());
            i += 1;
        }
        assert(self@.take(i as int) =~= self@);
        r
    }
}

/// The model of a vector of pairs as it is handed to `AspectList::from_pairs`.
pub open spec fn pairs_view(pairs: Seq<(String, Vec<String>)>) -> Aspects {
    Seq::new(
        pairs.len(),
        |i: int| (pairs[i].0@, Seq::new(pairs[i].1@.len(), |j: int| pairs[i].1@[j]@)),
    )
}

/// A prefix of a well-formed list is well formed.
pub proof fn lemma_take_well_formed(a: Aspects, n: int)
    requires
        well_formed(a),
        0 <= n <= a.len(),
    ensures
        well_formed(a.take(n)),
{
    let t = a.take(n);
    assert forall|i: int, j: int| 0 <= i < j < t.len() implies (#[trigger] t[i]).0 != (
    #[trigger] t[j]).0 by {
        assert(a[i].0 != a[j].0);
    }
    assert forall|i: int| 0 <= i < t.len() implies (#[trigger] t[i]).1.no_duplicates() by {
        assert(a[i].1.no_duplicates());
    }
}

/// With distinct keys, the key at position `n` is not a key of the pairs
/// before it.
pub proof fn lemma_absent_before<T>(s: Seq<(Key, T)>, n: int)
    requires
        distinct_keys(s),
        0 <= n < s.len(),
    ensures
        !has_key(s.take(n), s[n].0),
{
    let t = s.take(n);
    if has_key(t, s[n].0) {
        let p = position(t, s[n].0);
        assert(s[p].0 != s[n].0);
    }
}

/// Listing one more aspect keeps a list well formed, and changes what it
/// holds by that aspect alone.
pub proof fn lemma_with_aspect(a: Aspects, e: Key, x: Key)
    requires
        well_formed(a),
    ensures
        well_formed(with_aspect(a, e, x)),
        has_key(with_aspect(a, e, x), e),
        forall|f: Key| has_key(a, f) ==> has_key(with_aspect(a, e, x), f),
        forall|f: Key, y: Key| #[trigger]
            holds(with_aspect(a, e, x), f, y) == (holds(a, f, y) || (f == e && y == x)),
{
    let xs = aspects_of(a, e);
    let ys = with_member(xs, x);
    let t = with_aspect(a, e, x);
    lemma_put(a, e, ys);
    if has_key(a, e) {
        let p = position(a, e);
        assert(a[p].1.no_duplicates());
    }
    assert(ys.no_duplicates());
    assert forall|i: int| 0 <= i < t.len() implies (#[trigger] t[i]).1.no_duplicates() by {
        if has_key(a, e) {
            let p = position(a, e);
            if i != p {
                assert(t[i] == a[i]);
                assert(a[i].1.no_duplicates());
            }
        } else {
            if i < a.len() {
                assert(t[i] == a[i]);
                assert(a[i].1.no_duplicates());
            }
        }
    }
    assert forall|f: Key, y: Key| #[trigger]
        holds(t, f, y) == (holds(a, f, y) || (f == e && y == x)) by {
        if f == e {
            assert(aspects_of(t, e) == ys);
            if xs.contains(y) {
                let i = choose|i: int| 0 <= i < xs.len() && xs[i] == y;
                assert(ys[i] == y);
            }
            if !xs.contains(x) {
                assert(ys[xs.len() as int] == x);
            }
            if ys.contains(y) && y != x {
                let i = choose|i: int| 0 <= i < ys.len() && ys[i] == y;
                assert(xs[i] == y);
            }
        } else {
            assert(lookup(t, f) == lookup(a, f));
        }
    }
}

/// Listing, for an entry that is new, aspects that are pairwise different
/// makes a pair of the entry and these aspects at the end of the list.
proof fn lemma_with_aspects_new(a: Aspects, e: Key, xs: Seq<Key>)
    requires
        distinct_keys(a),
        !has_key(a, e),
        xs.no_duplicates(),
    ensures
        with_aspects(a, e, xs) == a.push((e, xs)),
    decreases xs.len(),
{
    if xs.len() == 0 {
        assert(aspects_of(a, e) =~= xs);
    } else {
        let front = xs.drop_last();
        lemma_with_aspects_new(a, e, front);
        let b = a.push((e, front));
        assert(distinct_keys(b)) by {
            assert forall|i: int, j: int| 0 <= i < j < b.len() implies (#[trigger] b[i]).0 != (
            #[trigger] b[j]).0 by {
                if j < a.len() {
                    assert(a[i].0 != a[j].0);
                } else {
                    assert(b[i] == a[i]);
                }
            }
        }
        lemma_position_unique(b, a.len() as int);
        assert(aspects_of(b, e) == front);
        if front.contains(xs.last()) {
            let i = choose|i: int| 0 <= i < front.len() && front[i] == xs.last();
            assert(xs[i] == xs[xs.len() - 1]);
        }
        assert(with_member(front, xs.last()) =~= xs);
        assert(with_aspect(b, e, xs.last()) =~= a.push((e, xs)));
    }
}

/// Building a list from the pairs of a list gives that list: construction
/// is idempotent.
pub proof fn lemma_from_pairs_of_list(a: Aspects)
    requires
        well_formed(a),
    ensures
        from_pairs(a) == a,
    decreases a.len(),
{
    if a.len() == 0 {
        assert(from_pairs(a) =~= a);
    } else {
        let front = a.drop_last();
        let n = front.len() as int;
        lemma_take_well_formed(a, n);
        assert(a.take(n) =~= front);
        lemma_from_pairs_of_list(front);
        lemma_absent_before(a, n);
        assert(a[n].1.no_duplicates());
        lemma_with_aspects_new(front, a.last().0, a.last().1);
        assert(front.push(a.last()) =~= a);
    }
}

} // verus!
