//! A space: the agents that have joined it, the aspects that it has been told
//! of, and the ledger of what each agent is known to lack.

use vstd::prelude::*;
use crate::agent_info::{AgentInfo, AgentInfoView};
use crate::aspect_list::{AspectList, Aspects, well_formed, with_aspect};
use crate::assoc::{del, distinct_keys, has_key, Key, lemma_put, lookup, position, put};
use crate::error::Sim2hError;
use crate::ident::{AgentId, AspectHash, EntryHash, ids_view, Lib3hUri, Location};
use crate::naive_sharding::{closest, closest_agents, Member, members_view};
use crate::str_set::distinct;
use crate::table::Table;

verus! {

/// One line of the ledger: an agent, an entry, and an aspect of that entry
/// which the agent lacks.
pub type Missing = (Key, Key, Key);

/// The model of a space.
pub struct SpaceView {
    /// The agents with their records, in the order in which they joined.
    pub agents: Seq<Member>,
    /// Every aspect that the space has been told of.
    pub all_aspects: Aspects,
    /// The place on the ring of each entry whose place is known.
    pub locations: Seq<(Key, u32)>,
    /// The ledger of missing aspects, in the order in which they were noted.
    pub missing: Seq<Missing>,
}

/// Whether some agent other than `agent` has joined from `uri`.
pub open spec fn claimed_by_other(agents: Seq<Member>, agent: Key, uri: Key) -> bool {
    exists|i: int| 0 <= i < agents.len() && (#[trigger] agents[i]).0 != agent && agents[i].1.uri == uri
}

/// The ledger with one more line, unless it holds the line already.
pub open spec fn with_missing(ledger: Seq<Missing>, line: Missing) -> Seq<Missing> {
    if ledger.contains(line) {
        ledger
    } else {
        ledger.push(line)
    }
}

/// The ledger without `line`.
pub open spec fn without_missing(ledger: Seq<Missing>, line: Missing) -> Seq<Missing> {
    if ledger.contains(line) {
        ledger.remove(ledger.index_of(line))
    } else {
        ledger
    }
}

/// The agents of the lines of the ledger, in order.
pub open spec fn ledger_agents(ledger: Seq<Missing>) -> Seq<Key> {
    Seq::new(ledger.len(), |i: int| ledger[i].0)
}

/// Whether the ledger holds a line for `agent` and `entry` with each of
/// `aspects`.
pub open spec fn missing_all(ledger: Seq<Missing>, agent: Key, entry: Key, aspects: Seq<Key>) -> bool {
    forall|i: int| 0 <= i < aspects.len() ==> ledger.contains((agent, entry, #[trigger] aspects[i]))
}

/// Whether the ledger holds any line for `agent` and `entry`.
pub open spec fn missing_some(ledger: Seq<Missing>, agent: Key, entry: Key) -> bool {
    exists|i: int| 0 <= i < ledger.len() && (#[trigger] ledger[i]).0 == agent && ledger[i].1 == entry
}

/// Whether `agent` is among the `r` agents nearest to entry `e`, as far as the
/// place of `e` is known.
pub open spec fn in_shard(s: SpaceView, agent: Key, r: nat, e: Key) -> bool {
    match lookup(s.locations, e) {
        Some(loc) => has_key(closest(s.agents, loc, r), agent),
        None => false,
    }
}

/// The pairs of `a`, in order, whose entry lies in the shard of `agent`.
pub open spec fn shard_of(s: SpaceView, a: Aspects, agent: Key, r: nat) -> Aspects
    decreases a.len(),
{
    if a.len() == 0 {
        Seq::empty()
    } else if in_shard(s, agent, r, a.last().0) {
        shard_of(s, a.drop_last(), agent, r).push(a.last())
    } else {
        shard_of(s, a.drop_last(), agent, r)
    }
}

/// A space: the agents that have joined it, the aspects that it has been told
/// of, and the ledger of what each agent is known to lack.
#[derive(Clone, Debug)]
pub struct Space {
    agents: Table<AgentInfo>,
    all_aspects: AspectList,
    locations: Table<Location>,
    missing: Vec<(AgentId, EntryHash, AspectHash)>,
}

impl View for Space {
    type V = SpaceView;

    closed spec fn view(&self) -> SpaceView {
        SpaceView {
            agents: self.agents@,
            all_aspects: self.all_aspects@,
            locations: self.locations@,
            missing: Seq::new(
                self.missing@.len(),
                |i: int| (self.missing@[i].0@, self.missing@[i].1@, self.missing@[i].2@),
            ),
        }
    }
}

impl SpaceView {
    /// No agent, entry or ledger line occurs twice.
    pub open spec fn wf(self) -> bool {
        &&& distinct_keys(self.agents)
        &&& well_formed(self.all_aspects)
        &&& distinct_keys(self.locations)
        &&& self.missing.no_duplicates()
    }

    /// The model of a space that nobody has joined yet.
    pub open spec fn empty() -> SpaceView {
        SpaceView {
            agents: Seq::empty(),
            all_aspects: Seq::empty(),
            locations: Seq::empty(),
            missing: Seq::empty(),
        }
    }
}

impl Space {
    /// No agent, entry or ledger line occurs twice.
    pub open spec fn wf(&self) -> bool {
        self@.wf()
    }

    pub fn new() -> (s: Self)
        ensures
            s.wf(),
            s@ == SpaceView::empty(),
    {
        let s = Space {
            agents: Table::new(),
            all_aspects: AspectList::new(),
            locations: Table::new(),
            missing: Vec::new(),
        };
        assert(s@.missing =~= Seq::<Missing>::empty());
        s
    }

    /// Whether some agent other than `agent` has joined from `uri`.
    pub fn uri_claimed_by_other(&self, agent: &AgentId, uri: &Lib3hUri) -> (b: bool)
        ensures
            b == claimed_by_other(self@.agents, agent@, uri@),
    {
        let mut i: usize = 0;
        while i < self.agents.len()
            invariant
                i <= self.agents@.len(),
                forall|j: int|
                    0 <= j < i ==> !((#[trigger] self.agents@[j]).0 != agent@ && self.agents@[j].1.uri
                        == uri@),
            decreases self.agents@.len() - i,
        {
            if *self.agents.key_at(i) != *agent && self.agents.value_at(i).uri == *uri {
                assert(self.agents@[i as int].0 != agent@ && self.agents@[i as int].1.uri == uri@);
                return true;
            }
            i += 1;
        }
        false
    }

    /// Records that `agent` has joined from `uri`; an agent that joins again
    /// has its record replaced. Fails, and changes nothing, when `uri` is
    /// already the address of another agent of the space.
    pub fn join_agent(&mut self, agent: AgentId, uri: Lib3hUri, location: Location) -> (r: Result<
        (),
        Sim2hError,
    >)
        requires
            old(self).wf(),
        ensures
            final(self).wf(),
            claimed_by_other(old(self)@.agents, agent@, uri@) ==> r == Err::<(), Sim2hError>(
                Sim2hError::UriClaimed,
            ) && final(self)@ == old(self)@,
            !claimed_by_other(old(self)@.agents, agent@, uri@) ==> r is Ok && final(self)@ == (
            SpaceView {
                agents: put(old(self)@.agents, agent@, AgentInfoView { uri: uri@, location }),
                ..old(self)@
            }),
    {
        if self.uri_claimed_by_other(&agent, &uri) {
            return Err(Sim2hError::UriClaimed);
        }
        self.agents.insert(agent, AgentInfo::new(uri, location));
        Ok(())
    }

    /// Takes `agent` out of the space and tells how many agents are left.
    pub fn remove_agent(&mut self, agent: &AgentId) -> (left: usize)
        requires
            old(self).wf(),
        ensures
            final(self).wf(),
            final(self)@ == (SpaceView { agents: del(old(self)@.agents, agent@), ..old(self)@ }),
            left == final(self)@.agents.len(),
    {
        let _ = self.agents.remove(agent);
        self.agents.len()
    }

    /// The agents with their records, in the order in which they joined.
    pub fn all_agents(&self) -> (t: &Table<AgentInfo>)
        ensures
            t@ == self@.agents,
    {
        &self.agents
    }

    /// Every aspect that the space has been told of.
    pub fn all_aspects(&self) -> (l: &AspectList)
        ensures
            l@ == self@.all_aspects,
    {
        &self.all_aspects
    }

    /// The address that `agent` joined from, if it is in the space.
    pub fn agent_id_to_uri(&self, agent: &AgentId) -> (r: Option<Lib3hUri>)
        requires
            self.wf(),
        ensures
            r is Some == has_key(self@.agents, agent@),
            r matches Some(uri) ==> lookup(self@.agents, agent@) matches Some(info) && info.uri
                == uri@,
    {
        match self.agents.get(agent) {
            Some(info) => Some(info.uri.clone()),
            None => None,
        }
    }

    /// Notes that the space has been told of aspect `aspect` of `entry`; a
    /// second telling changes nothing.
    pub fn add_aspect(&mut self, entry: EntryHash, aspect: AspectHash)
        requires
            old(self).wf(),
        ensures
            final(self).wf(),
            final(self)@ == (SpaceView {
                all_aspects: with_aspect(old(self)@.all_aspects, entry@, aspect@),
                ..old(self)@
            }),
    {
        self.all_aspects.add(entry, aspect);
    }

    /// Notes the place of `entry` on the ring.
    pub fn set_entry_location(&mut self, entry: EntryHash, location: Location)
        requires
            old(self).wf(),
        ensures
            final(self).wf(),
            final(self)@ == (SpaceView {
                locations: put(old(self)@.locations, entry@, location),
                ..old(self)@
            }),
    {
        self.locations.insert(entry, location);
    }

    /// The place of `entry` on the ring, if it is known.
    pub fn entry_location(&self, entry: &EntryHash) -> (r: Option<Location>)
        requires
            self.wf(),
        ensures
            r == lookup(self@.locations, entry@),
    {
        match self.locations.get(entry) {
            Some(loc) => Some(*loc),
            None => None,
        }
    }

    fn find_missing(&self, agent: &AgentId, entry: &EntryHash, aspect: &AspectHash) -> (r: Option<
        usize,
    >)
        ensures
            r is Some == self@.missing.contains((agent@, entry@, aspect@)),
            r matches Some(i) ==> i < self@.missing.len() && self@.missing[i as int] == (
                agent@,
                entry@,
                aspect@,
            ),
    {
        let mut i: usize = 0;
        while i < self.missing.len()
            invariant
                i <= self.missing@.len(),
                forall|j: int| 0 <= j < i ==> self@.missing[j] != (agent@, entry@, aspect@),
            decreases self.missing@.len() - i,
        {
            if self.missing[i].0 == *agent && self.missing[i].1 == *entry && self.missing[i].2
                == *aspect {
                assert(self@.missing[i as int] == (agent@, entry@, aspect@));
                return Some(i);
            }
            i += 1;
        }
        None
    }

    /// Notes in the ledger that `agent` lacks aspect `aspect` of `entry`.
    pub fn add_missing_aspect(&mut self, agent: AgentId, entry: EntryHash, aspect: AspectHash)
        requires
            old(self).wf(),
        ensures
            final(self).wf(),
            final(self)@ == (SpaceView {
                missing: with_missing(old(self)@.missing, (agent@, entry@, aspect@)),
                ..old(self)@
            }),
    {
        if self.find_missing(&agent, &entry, &aspect).is_none() {
            self.missing.push((agent, entry, aspect));
            assert(self@.missing =~= old(self)@.missing.push((agent@, entry@, aspect@)));
        }
    }

    /// Strikes from the ledger that `agent` lacks aspect `aspect` of `entry`.
    /// Nothing else is kept of an entry once its last aspect is struck, nor of
    /// an agent once its last entry is.
    pub fn remove_missing_aspect(&mut self, agent: &AgentId, entry: &EntryHash, aspect: &AspectHash)
        requires
            old(self).wf(),
        ensures
            final(self).wf(),
            final(self)@ == (SpaceView {
                missing: without_missing(old(self)@.missing, (agent@, entry@, aspect@)),
                ..old(self)@
            }),
    {
        match self.find_missing(agent, entry, aspect) {
            Some(i) => {
                let ghost line = (agent@, entry@, aspect@);
                let ghost p = old(self)@.missing.index_of(line);
                assert(p == i) by {
                    if p != i as int {
                        assert(old(self)@.missing[p] == old(self)@.missing[i as int]);
                    }
                }
                let _ = self.missing.remove(i);
                assert(self@.missing =~= old(self)@.missing.remove(i as int));
                assert(self@.missing.no_duplicates()) by {
                    let t = self@.missing;
                    let s = old(self)@.missing;
                    assert forall|a: int, b: int| 0 <= a < t.len() && 0 <= b < t.len() && a
                        != b implies t[a] != t[b] by {
                        let a2 = if a < i { a } else { a + 1 };
                        let b2 = if b < i { b } else { b + 1 };
                        assert(t[a] == s[a2]);
                        assert(t[b] == s[b2]);
                    }
                }
            },
            None => {},
        }
    }

    /// The agents that the ledger has a line for, each once, in the order of
    /// their first lines.
    pub fn agents_with_missing_aspects(&self) -> (v: Vec<AgentId>)
        ensures
            ids_view(v@) == distinct(ledger_agents(self@.missing)),
    {
        let ghost all = ledger_agents(self@.missing);
        let mut v: Vec<AgentId> = Vec::new();
        let mut i: usize = 0;
        assert(all.take(0) =~= Seq::<Key>::empty());
        assert(ids_view(v@) =~= Seq::<Key>::empty());
        while i < self.missing.len()
            invariant
                i <= self.missing@.len(),
                all == ledger_agents(self@.missing),
                ids_view(v@) == distinct(all.take(i as int)),
            decreases self.missing@.len() - i,
        {
            proof {
                assert(all.take(i + 1).drop_last() =~= all.take(i as int));
                assert(all.take(i + 1).last() == self.missing@[i as int].0@);
            }
            let agent = &self.missing[i].0;
            let mut seen = false;
            let mut j: usize = 0;
            while j < v.len()
                invariant
                    j <= v@.len(),
                    seen == exists|k: int| 0 <= k < j && ids_view(v@)[k] == agent@,
                decreases v@.len() - j,
            {
                if v[j] == *agent {
                    assert(ids_view(v@)[j as int] == agent@);
                    seen = true;
                }
                j += 1;
            }
            assert(seen == ids_view(v@).contains(agent@));
            if !seen {
                let ghost before = ids_view(v@);
                v.push(agent.clone());
                assert(ids_view(v@) =~= before.push(agent@));
            }
            i += 1;
        }
        assert(all.take(i as int) =~= all);
        v
    }

    /// Whether the ledger says of every one of `aspects` that `agent` lacks
    /// it of `entry`.
    pub fn agent_is_missing_all_aspects(
        &self,
        agent: &AgentId,
        entry: &EntryHash,
        aspects: &Vec<AspectHash>,
    ) -> (b: bool)
        ensures
            b == missing_all(self@.missing, agent@, entry@, ids_view(aspects@)),
    {
        let mut i: usize = 0;
        while i < aspects.len()
            invariant
                i <= aspects@.len(),
                forall|j: int|
                    0 <= j < i ==> self@.missing.contains(
                        (agent@, entry@, #[trigger] ids_view(aspects@)[j]),
                    ),
            decreases aspects@.len() - i,
        {
            if self.find_missing(agent, entry, &aspects[i]).is_none() {
                assert(!self@.missing.contains((agent@, entry@, ids_view(aspects@)[i as int])));
                return false;
            }
            i += 1;
        }
        true
    }

    /// Whether the ledger says of any aspect of `entry` that `agent` lacks it.
    pub fn agent_is_missing_some_aspect_for_entry(&self, agent: &AgentId, entry: &EntryHash) -> (b:
        bool)
        ensures
            b == missing_some(self@.missing, agent@, entry@),
    {
        let mut i: usize = 0;
        while i < self.missing.len()
            invariant
                i <= self.missing@.len(),
                forall|j: int|
                    0 <= j < i ==> !((#[trigger] self@.missing[j]).0 == agent@ && self@.missing[j].1
                        == entry@),
            decreases self.missing@.len() - i,
        {
            if self.missing[i].0 == *agent && self.missing[i].1 == *entry {
                assert(self@.missing[i as int].0 == agent@ && self@.missing[i as int].1 == entry@);
                return true;
            }
            i += 1;
        }
        false
    }

    /// The `r` agents whose places are nearest to `loc`, nearest first, ties
    /// broken by the order of the agents' identifiers; all agents when there
    /// are no more than `r`.
    pub fn agents_supposed_to_hold_entry(&self, loc: Location, r: u64) -> (res: Vec<
        (AgentId, AgentInfo),
    >)
        ensures
            members_view(res@) == closest(self@.agents, loc, r as nat),
    {
        closest_agents(&self.agents, loc, r)
    }

    /// What the space has been told of, restricted to the entries that
    /// `agent` is among the `r` nearest agents of.
    pub fn aspects_in_shard_for_agent(&self, agent: &AgentId, r: u64) -> (l: AspectList)
        requires
            self.wf(),
        ensures
            l.wf(),
            l@ == shard_of(self@, self@.all_aspects, agent@, r as nat),
    {
        let mut l = AspectList::new();
        let mut i: usize = 0;
        let ghost a = self@.all_aspects;
        assert(a.take(0) =~= Seq::<(Key, Seq<Key>)>::empty());
        while i < self.all_aspects.len()
            invariant
                i <= a.len(),
                a == self@.all_aspects,
                self.wf(),
                l.wf(),
                l@ == shard_of(self@, a.take(i as int), agent@, r as nat),
                forall|e: Key| has_key(l@, e) ==> has_key(a.take(i as int), e),
            decreases a.len() - i,
        {
            proof {
                assert(a.take(i + 1).drop_last() =~= a.take(i as int));
                assert(a.take(i + 1).last() == a[i as int]);
            }
            let e = self.all_aspects.entry_at(i);
            let inside = match self.locations.get(e) {
                Some(loc) => {
                    let holders = closest_agents(&self.agents, *loc, r);
                    holds_agent(&holders, agent)
                },
                None => false,
            };
            assert(inside == in_shard(self@, agent@, r as nat, e@));
            let ghost lb = l@;
            if inside {
                proof {
                    crate::aspect_list::lemma_absent_before(a, i as int);
                    assert(!has_key(l@, e@));
                    lemma_put(l@, e@, a[i as int].1);
                }
                l.put_entry(e.clone(), self.all_aspects.aspects_at(i).duplicate());
            }
            proof {
                assert forall|f: Key| has_key(l@, f) implies has_key(a.take(i + 1), f) by {
                    if f != e@ {
                        if inside {
                            lemma_put(lb, e@, a[i as int].1);
                        }
                        assert(has_key(lb, f));
                        assert(has_key(a.take(i as int), f));
                        let p = position(a.take(i as int), f);
                        assert(a.take(i + 1)[p].0 == f);
                    } else {
                        assert(a.take(i + 1)[i as int].0 == f);
                    }
                }
            }
            i += 1;
        }
        assert(a.take(i as int) =~= a);
        l
    }
}

/// Whether `agent` is one of `members`.
fn holds_agent(members: &Vec<(AgentId, AgentInfo)>, agent: &AgentId) -> (b: bool)
    ensures
        b == has_key(members_view(members@), agent@),
{
    let mut i: usize = 0;
    while i < members.len()
        invariant
            i <= members@.len(),
            forall|j: int| 0 <= j < i ==> (#[trigger] members_view(members@)[j]).0 != agent@,
        decreases members@.len() - i,
    {
        if members[i].0 == *agent {
            assert(members_view(members@)[i as int].0 == agent@);
            return true;
        }
        i += 1;
    }
    false
}

} // verus!
