//! Naive sharding: an entry is held by the agents whose places on the 32-bit
//! ring are nearest to the place of the entry.

use vstd::prelude::*;
use crate::agent_info::{AgentInfo, AgentInfoView};
use crate::assoc::Key;
use crate::ident::{AgentId, id_before, id_precedes, Location};
use crate::table::Table;

verus! {

/// The model of an agent with its record.
pub type Member = (Key, AgentInfoView);

/// The four bytes that `hash` folds into: byte `i` of the hash is combined,
/// by exclusive or, into byte `i mod 4`.
pub open spec fn folded(hash: Seq<u8>) -> Seq<u8>
    decreases hash.len(),
{
    if hash.len() == 0 {
        seq![0u8, 0u8, 0u8, 0u8]
    } else {
        let f = folded(hash.drop_last());
        let k = (hash.len() - 1) % 4;
        f.update(k, f[k] ^ hash.last())
    }
}

/// The place on the ring that four bytes name, the first byte the lowest.
pub open spec fn place_of(b: Seq<u8>) -> u32 {
    (b[0] as u32) | ((b[1] as u32) << 8) | ((b[2] as u32) << 16) | ((b[3] as u32) << 24)
}

/// A hash always folds into four bytes.
pub proof fn lemma_folded_len(hash: Seq<u8>)
    ensures
        folded(hash).len() == 4,
    decreases hash.len(),
{
    if hash.len() > 0 {
        lemma_folded_len(hash.drop_last());
    }
}

/// The place on the ring of what hashes to `hash`: the hash folded into 32
/// bits.
pub fn fold_location(hash: &Vec<u8>) -> (loc: Location)
    ensures
        loc == place_of(folded(hash@)),
{
    let mut b0: u8 = 0;
    let mut b1: u8 = 0;
    let mut b2: u8 = 0;
    let mut b3: u8 = 0;
    let mut i: usize = 0;
    assert(hash@.take(0) =~= Seq::<u8>::empty());
    while i < hash.len()
        invariant
            i <= hash@.len(),
            folded(hash@.take(i as int)) == seq![b0, b1, b2, b3],
        decreases hash@.len() - i,
    {
        proof {
            assert(hash@.take(i + 1).drop_last() =~= hash@.take(i as int));
            assert(hash@.take(i + 1).last() == hash@[i as int]);
        }
        let ghost before = seq![b0, b1, b2, b3];
        let k = i % 4;
        if k == 0 {
            b0 = b0 ^ hash[i];
        } else if k == 1 {
            b1 = b1 ^ hash[i];
        } else if k == 2 {
            b2 = b2 ^ hash[i];
        } else {
            b3 = b3 ^ hash[i];
        }
        assert(seq![b0, b1, b2, b3] =~= before.update(k as int, before[k as int] ^ hash@[i as int]));
        i += 1;
    }
    assert(hash@.take(i as int) =~= hash@);
    (b0 as u32) | ((b1 as u32) << 8) | ((b2 as u32) << 16) | ((b3 as u32) << 24)
}

/// The distance between two places on the ring, the shorter way round.
pub open spec fn ring_distance(a: u32, b: u32) -> int {
    let d = if a >= b {
        a - b
    } else {
        b - a
    };
    if d <= 0x8000_0000 {
        d
    } else {
        0x1_0000_0000 - d
    }
}

/// Whether member `p` ranks before member `q` as a holder of what lies at
/// `loc`: the nearer one first, and of two equally near the one whose
/// identifier comes first.
pub open spec fn ranks_before(loc: u32, p: Member, q: Member) -> bool {
    let dp = ring_distance(p.1.location, loc);
    let dq = ring_distance(q.1.location, loc);
    dp < dq || (dp == dq && id_before(p.0, q.0))
}

/// `s`, which is in rank order, with `x` put in its place.
pub open spec fn insert_ranked(s: Seq<Member>, x: Member, loc: u32) -> Seq<Member>
    decreases s.len(),
{
    if s.len() == 0 {
        seq![x]
    } else if ranks_before(loc, s.last(), x) {
        s.push(x)
    } else {
        insert_ranked(s.drop_last(), x, loc).push(s.last())
    }
}

/// The members in rank order, nearest first.
pub open spec fn ranked(members: Seq<Member>, loc: u32) -> Seq<Member>
    decreases members.len(),
{
    if members.len() == 0 {
        Seq::empty()
    } else {
        insert_ranked(ranked(members.drop_last(), loc), members.last(), loc)
    }
}

/// The `r` members nearest to `loc`, nearest first; all of them when there
/// are no more than `r`.
pub open spec fn closest(members: Seq<Member>, loc: u32, r: nat) -> Seq<Member> {
    let all = ranked(members, loc);
    if r < all.len() {
        all.take(r as int)
    } else {
        all
    }
}

/// The model of a vector of agents with their records.
pub open spec fn members_view(v: Seq<(AgentId, AgentInfo)>) -> Seq<Member> {
    Seq::new(v.len(), |i: int| (v[i].0@, v[i].1@))
}

/// The distance between two places on the ring, the shorter way round.
pub fn distance(a: Location, b: Location) -> (d: u32)
    ensures
        d == ring_distance(a, b),
{
    let d: u32 = if a >= b {
        a - b
    } else {
        b - a
    };
    if d <= 0x8000_0000 {
        d
    } else {
        (0xffff_ffff - d) + 1
    }
}

/// Whether `p` ranks before `q` as a holder of what lies at `loc`.
pub fn precedes(loc: Location, p: &(AgentId, AgentInfo), q: &(AgentId, AgentInfo)) -> (b: bool)
    ensures
        b == ranks_before(loc, (p.0@, p.1@), (q.0@, q.1@)),
{
    let dp = distance(p.1.location, loc);
    let dq = distance(q.1.location, loc);
    if dp < dq {
        true
    } else if dp == dq {
        id_precedes(&p.0, &q.0)
    } else {
        false
    }
}

/// Where `insert_ranked` puts a member: behind the last one that ranks
/// before it.
proof fn lemma_insert_ranked_at(s: Seq<Member>, x: Member, loc: u32, j: int)
    requires
        0 <= j <= s.len(),
        j == 0 || ranks_before(loc, s[j - 1], x),
        forall|k: int| j <= k < s.len() ==> !ranks_before(loc, #[trigger] s[k], x),
    ensures
        insert_ranked(s, x, loc) == s.insert(j, x),
    decreases s.len() - j,
{
    if s.len() == 0 {
        assert(s.insert(j, x) =~= seq![x]);
    } else if j == s.len() {
        assert(s.insert(j, x) =~= s.push(x));
    } else {
        assert(!ranks_before(loc, s[s.len() - 1], x));
        lemma_insert_ranked_at(s.drop_last(), x, loc, j);
        assert(s.drop_last().insert(j, x).push(s.last()) =~= s.insert(j, x));
    }
}

/// Puts `x` in its place in `sorted`, which is in rank order.
fn insert_by_rank(sorted: &mut Vec<(AgentId, AgentInfo)>, x: (AgentId, AgentInfo), loc: Location)
    ensures
        members_view(final(sorted)@) == insert_ranked(
            members_view(old(sorted)@),
            (x.0@, x.1@),
            loc,
        ),
{
    let ghost s = members_view(sorted@);
    let ghost xv = (x.0@, x.1@);
    let mut j: usize = sorted.len();
    while j > 0 && !precedes(loc, &sorted[j - 1], &x)
        invariant
            j <= sorted@.len(),
            sorted@ == old(sorted)@,
            s == members_view(sorted@),
            xv == (x.0@, x.1@),
            forall|k: int| j <= k < s.len() ==> !ranks_before(loc, #[trigger] s[k], xv),
        decreases j,
    {
        j -= 1;
    }
    proof {
        lemma_insert_ranked_at(s, xv, loc, j as int);
    }
    sorted.insert(j, x);
    assert(members_view(sorted@) =~= s.insert(j as int, xv));
}

/// The `r` agents of `agents` whose places are nearest to `loc`, nearest
/// first, ties broken by the order of the agents' identifiers; all agents
/// when there are no more than `r`.
pub fn closest_agents(agents: &Table<AgentInfo>, loc: Location, r: u64) -> (res: Vec<
    (AgentId, AgentInfo),
>)
    ensures
        members_view(res@) == closest(agents@, loc, r as nat),
{
    let mut sorted: Vec<(AgentId, AgentInfo)> = Vec::new();
    let mut i: usize = 0;
    assert(agents@.take(0) =~= Seq::<Member>::empty());
    assert(members_view(sorted@) =~= Seq::<Member>::empty());
    while i < agents.len()
        invariant
            i <= agents@.len(),
            members_view(sorted@) == ranked(agents@.take(i as int), loc),
        decreases agents@.len() - i,
    {
        proof {
            assert(agents@.take(i + 1).drop_last() =~= agents@.take(i as int));
            assert(agents@.take(i + 1).last() == agents@[i as int]);
        }
        let x = (agents.key_at(i).clone(), agents.value_at(i).duplicate());
        insert_by_rank(&mut sorted, x, loc);
        i += 1;
    }
    assert(agents@.take(i as int) =~= agents@);
    if r < sorted.len() as u64 {
        let ghost before = members_view(sorted@);
        sorted.truncate(r as usize);
        assert(members_view(sorted@) =~= before.take(r as int));
    }
    sorted
}

/// Whether `s` is in rank order, nearest first.
pub open spec fn in_rank_order(s: Seq<Member>, loc: u32) -> bool {
    forall|i: int, j: int| 0 <= i < j < s.len() ==> ranks_before(loc, s[i], s[j])
}

/// The rank is a strict total order on members with different identifiers.
pub proof fn lemma_rank_order(loc: u32, p: Member, q: Member, r: Member)
    ensures
        !ranks_before(loc, p, p),
        !(ranks_before(loc, p, q) && ranks_before(loc, q, p)),
        p.0 != q.0 ==> ranks_before(loc, p, q) || ranks_before(loc, q, p),
        ranks_before(loc, p, q) && ranks_before(loc, q, r) ==> ranks_before(loc, p, r),
{
    crate::ident::lemma_id_order(p.0, q.0, r.0);
    crate::ident::lemma_id_order(p.0, p.0, p.0);
}

/// Putting a member in its place adds that member and nothing else.
pub proof fn lemma_insert_ranked_len(s: Seq<Member>, x: Member, loc: u32)
    ensures
        insert_ranked(s, x, loc).len() == s.len() + 1,
    decreases s.len(),
{
    if s.len() > 0 && !ranks_before(loc, s.last(), x) {
        lemma_insert_ranked_len(s.drop_last(), x, loc);
    }
}

/// Ranking keeps the number of members.
pub proof fn lemma_ranked_len(members: Seq<Member>, loc: u32)
    ensures
        ranked(members, loc).len() == members.len(),
    decreases members.len(),
{
    if members.len() > 0 {
        lemma_ranked_len(members.drop_last(), loc);
        lemma_insert_ranked_len(ranked(members.drop_last(), loc), members.last(), loc);
    }
}

/// The nearest are as many as asked for, or all if there are fewer.
pub proof fn lemma_closest_len(members: Seq<Member>, loc: u32, r: nat)
    ensures
        closest(members, loc, r).len() == if r < members.len() {
            r
        } else {
            members.len()
        },
{
    lemma_ranked_len(members, loc);
}

/// Putting a member whose identifier is new in its place keeps the rank
/// order, and adds that member and nothing else.
pub proof fn lemma_insert_ranked(s: Seq<Member>, x: Member, loc: u32)
    requires
        in_rank_order(s, loc),
        forall|i: int| 0 <= i < s.len() ==> (#[trigger] s[i]).0 != x.0,
    ensures
        in_rank_order(insert_ranked(s, x, loc), loc),
        forall|m: Member| #[trigger]
            insert_ranked(s, x, loc).contains(m) <==> s.contains(m) || m == x,
    decreases s.len(),
{
    let t = insert_ranked(s, x, loc);
    if s.len() == 0 {
        assert(t[0] == x);
        assert forall|m: Member| #[trigger] t.contains(m) <==> s.contains(m) || m == x by {
            if t.contains(m) {
                let i = choose|i: int| 0 <= i < t.len() && t[i] == m;
            }
        }
    } else if ranks_before(loc, s.last(), x) {
        assert forall|i: int, j: int| 0 <= i < j < t.len() implies ranks_before(
            loc,
            t[i],
            t[j],
        ) by {
            if j == s.len() {
                if i < s.len() - 1 {
                    assert(ranks_before(loc, s[i], s[s.len() - 1]));
                    lemma_rank_order(loc, s[i], s.last(), x);
                }
            } else {
                assert(ranks_before(loc, s[i], s[j]));
            }
        }
        assert forall|m: Member| #[trigger] t.contains(m) <==> s.contains(m) || m == x by {
            if t.contains(m) {
                let i = choose|i: int| 0 <= i < t.len() && t[i] == m;
                if i < s.len() {
                    assert(s[i] == m);
                }
            }
            if s.contains(m) {
                let i = choose|i: int| 0 <= i < s.len() && s[i] == m;
                assert(t[i] == m);
            }
            if m == x {
                assert(t[s.len() as int] == m);
            }
        }
    } else {
        let front = s.drop_last();
        let last = s.last();
        assert(in_rank_order(front, loc)) by {
            assert forall|i: int, j: int| 0 <= i < j < front.len() implies ranks_before(
                loc,
                front[i],
                front[j],
            ) by {
                assert(ranks_before(loc, s[i], s[j]));
            }
        }
        assert forall|i: int| 0 <= i < front.len() implies (#[trigger] front[i]).0 != x.0 by {
            assert(s[i].0 != x.0);
        }
        lemma_insert_ranked(front, x, loc);
        let r0 = insert_ranked(front, x, loc);
        assert(t == r0.push(last));
        assert(s[s.len() - 1].0 != x.0);
        lemma_rank_order(loc, x, last, last);
        assert(ranks_before(loc, x, last));
        assert forall|i: int, j: int| 0 <= i < j < t.len() implies ranks_before(
            loc,
            t[i],
            t[j],
        ) by {
            if j == r0.len() {
                assert(r0.contains(r0[i]));
                if r0[i] != x {
                    assert(front.contains(r0[i]));
                    let k = choose|k: int| 0 <= k < front.len() && front[k] == r0[i];
                    assert(ranks_before(loc, s[k], s[s.len() - 1]));
                }
            } else {
                assert(ranks_before(loc, r0[i], r0[j]));
            }
        }
        assert forall|m: Member| #[trigger] t.contains(m) <==> s.contains(m) || m == x by {
            if t.contains(m) {
                let i = choose|i: int| 0 <= i < t.len() && t[i] == m;
                if i < r0.len() {
                    assert(r0[i] == m);
                    assert(r0.contains(m));
                    if m != x {
                        assert(front.contains(m));
                        let k = choose|k: int| 0 <= k < front.len() && front[k] == m;
                        assert(s[k] == m);
                    }
                } else {
                    assert(s[s.len() - 1] == m);
                }
            }
            if s.contains(m) {
                let k = choose|k: int| 0 <= k < s.len() && s[k] == m;
                if k < front.len() {
                    assert(front[k] == m);
                    assert(front.contains(m));
                    assert(r0.contains(m));
                    let i = choose|i: int| 0 <= i < r0.len() && r0[i] == m;
                    assert(t[i] == m);
                } else {
                    assert(t[r0.len() as int] == m);
                }
            }
            if m == x {
                assert(r0.contains(x));
                let i = choose|i: int| 0 <= i < r0.len() && r0[i] == x;
                assert(t[i] == m);
            }
        }
    }
}

/// Ranking members with different identifiers puts them in rank order and
/// keeps every one of them.
pub proof fn lemma_ranked(members: Seq<Member>, loc: u32)
    requires
        crate::assoc::distinct_keys(members),
    ensures
        in_rank_order(ranked(members, loc), loc),
        forall|m: Member| #[trigger] ranked(members, loc).contains(m) <==> members.contains(m),
    decreases members.len(),
{
    let t = ranked(members, loc);
    if members.len() == 0 {
        assert forall|m: Member| #[trigger] t.contains(m) <==> members.contains(m) by {}
    } else {
        let front = members.drop_last();
        let x = members.last();
        assert(crate::assoc::distinct_keys(front)) by {
            assert forall|i: int, j: int| 0 <= i < j < front.len() implies (#[trigger] front[i]).0
                != (#[trigger] front[j]).0 by {
                assert(members[i].0 != members[j].0);
            }
        }
        lemma_ranked(front, loc);
        let r0 = ranked(front, loc);
        assert forall|i: int| 0 <= i < r0.len() implies (#[trigger] r0[i]).0 != x.0 by {
            assert(r0.contains(r0[i]));
            assert(front.contains(r0[i]));
            let k = choose|k: int| 0 <= k < front.len() && front[k] == r0[i];
            assert(members[k].0 != members[members.len() - 1].0);
        }
        lemma_insert_ranked(r0, x, loc);
        assert forall|m: Member| #[trigger] t.contains(m) <==> members.contains(m) by {
            if members.contains(m) {
                let k = choose|k: int| 0 <= k < members.len() && members[k] == m;
                if k < front.len() {
                    assert(front[k] == m);
                    assert(front.contains(m));
                    assert(r0.contains(m));
                }
            }
            if t.contains(m) && m != x {
                assert(r0.contains(m));
                assert(front.contains(m));
                let k = choose|k: int| 0 <= k < front.len() && front[k] == m;
                assert(members[k] == m);
            }
            if m == x {
                assert(members[members.len() - 1] == m);
            }
        }
    }
}

/// Two sequences in rank order that hold the same members are the same
/// sequence.
pub proof fn lemma_rank_order_unique(a: Seq<Member>, b: Seq<Member>, loc: u32)
    requires
        in_rank_order(a, loc),
        in_rank_order(b, loc),
        forall|m: Member| a.contains(m) <==> b.contains(m),
    ensures
        a == b,
    decreases a.len(),
{
    if a.len() == 0 {
        if b.len() > 0 {
            assert(b.contains(b[0]));
            assert(a.contains(b[0]));
        }
        assert(a =~= b);
    } else {
        assert(a.contains(a[0]));
        assert(b.contains(a[0]));
        let k = choose|k: int| 0 <= k < b.len() && b[k] == a[0];
        assert(b.contains(b[0]));
        assert(a.contains(b[0]));
        let m = choose|m: int| 0 <= m < a.len() && a[m] == b[0];
        lemma_rank_order(loc, a[0], b[0], a[0]);
        if k > 0 {
            assert(ranks_before(loc, b[0], b[k]));
            if m > 0 {
                assert(ranks_before(loc, a[0], a[m]));
            }
        }
        assert(a[0] == b[0]);
        let at = a.drop_first();
        let bt = b.drop_first();
        assert(in_rank_order(at, loc)) by {
            assert forall|i: int, j: int| 0 <= i < j < at.len() implies ranks_before(
                loc,
                at[i],
                at[j],
            ) by {
                assert(ranks_before(loc, a[i + 1], a[j + 1]));
            }
        }
        assert(in_rank_order(bt, loc)) by {
            assert forall|i: int, j: int| 0 <= i < j < bt.len() implies ranks_before(
                loc,
                bt[i],
                bt[j],
            ) by {
                assert(ranks_before(loc, b[i + 1], b[j + 1]));
            }
        }
        assert forall|x: Member| at.contains(x) <==> bt.contains(x) by {
            if at.contains(x) {
                let i = choose|i: int| 0 <= i < at.len() && at[i] == x;
                assert(a[i + 1] == x);
                assert(ranks_before(loc, a[0], a[i + 1]));
                lemma_rank_order(loc, a[0], x, x);
                assert(a.contains(x));
                assert(b.contains(x));
                let j = choose|j: int| 0 <= j < b.len() && b[j] == x;
                assert(j > 0);
                assert(bt[j - 1] == x);
            }
            if bt.contains(x) {
                let i = choose|i: int| 0 <= i < bt.len() && bt[i] == x;
                assert(b[i + 1] == x);
                assert(ranks_before(loc, b[0], b[i + 1]));
                lemma_rank_order(loc, b[0], x, x);
                assert(b.contains(x));
                assert(a.contains(x));
                let j = choose|j: int| 0 <= j < a.len() && a[j] == x;
                assert(j > 0);
                assert(at[j - 1] == x);
            }
        }
        lemma_rank_order_unique(at, bt, loc);
        assert(a =~= seq![a[0]] + at);
        assert(b =~= seq![b[0]] + bt);
    }
}

/// Which agents are nearest does not depend on the order in which the
/// agents joined: two tables that hold the same agents with the same records
/// have the same nearest agents, in the same order.
pub proof fn lemma_closest_order_invariant(a: Seq<Member>, b: Seq<Member>, loc: u32, r: nat)
    requires
        crate::assoc::distinct_keys(a),
        crate::assoc::distinct_keys(b),
        forall|m: Member| a.contains(m) <==> b.contains(m),
    ensures
        closest(a, loc, r) == closest(b, loc, r),
{
    lemma_ranked(a, loc);
    lemma_ranked(b, loc);
    assert forall|m: Member| ranked(a, loc).contains(m) <==> ranked(b, loc).contains(m) by {
        assert(ranked(a, loc).contains(m) <==> a.contains(m));
        assert(ranked(b, loc).contains(m) <==> b.contains(m));
    }
    lemma_rank_order_unique(ranked(a, loc), ranked(b, loc), loc);
}

/// The nearest agents are agents of the table, in rank order, and every
/// agent of the table that is not among them ranks behind each of them.
pub proof fn lemma_closest_nearest(members: Seq<Member>, loc: u32, r: nat)
    requires
        crate::assoc::distinct_keys(members),
    ensures
        in_rank_order(closest(members, loc, r), loc),
        forall|m: Member| #[trigger] closest(members, loc, r).contains(m) ==> members.contains(m),
        forall|m: Member, i: int|
            members.contains(m) && !closest(members, loc, r).contains(m) && 0 <= i < closest(
                members,
                loc,
                r,
            ).len() ==> #[trigger] ranks_before(loc, closest(members, loc, r)[i], m),
{
    lemma_ranked(members, loc);
    let all = ranked(members, loc);
    let c = closest(members, loc, r);
    assert forall|i: int, j: int| 0 <= i < j < c.len() implies ranks_before(loc, c[i], c[j]) by {
        assert(ranks_before(loc, all[i], all[j]));
    }
    assert forall|m: Member| #[trigger] c.contains(m) implies members.contains(m) by {
        let i = choose|i: int| 0 <= i < c.len() && c[i] == m;
        assert(all[i] == m);
        assert(all.contains(m));
    }
    assert forall|m: Member, i: int|
        members.contains(m) && !c.contains(m) && 0 <= i < c.len() implies #[trigger] ranks_before(
        loc,
        c[i],
        m,
    ) by {
        assert(all.contains(m));
        let j = choose|j: int| 0 <= j < all.len() && all[j] == m;
        if j < c.len() {
            assert(c[j] == m);
        }
        assert(ranks_before(loc, all[i], all[j]));
    }
}

} // verus!
