//! Quiet steps: the steps of the switchboard that leave the connections and
//! the membership of every space as they are, and under which what a space
//! knows can only grow.

use vstd::prelude::*;
use crate::aspect_list::{
    Aspects, aspects_of, diff, from_pairs, holds, lemma_diff, lemma_with_aspect, well_formed,
    with_aspect,
};
use crate::assoc::{distinct_keys, has_key, Key, lemma_position_unique, lookup, position};
use crate::dht::DhtAlgorithm;
use crate::frame::{
    extends, lemma_extends, lemma_fetch_by_shard_frame, lemma_fetch_frame,
    lemma_request_unseen_frame, lemma_send_frame, lemma_store_frame, only_sent,
};
use crate::model::{note_entry_from, note_missing_from, Sim2hView, with_entry_aspects_from};
use crate::protocol::{
    ClientToLib3hView, EntryAspectDataView, EntryDataView, FetchEntryResultDataView,
    Lib3hToClientResponseView, QueryEntryDataView,
};
use crate::space::{in_shard, Missing, shard_of, SpaceView, with_missing, without_missing};
use crate::wire_message::WireMessageView;

verus! {

/// Whether every line of the ledger of `v` is about an aspect that `v` has
/// been told of.
pub open spec fn ledger_known(v: SpaceView) -> bool {
    forall|line: Missing| #[trigger]
        v.missing.contains(line) ==> holds(v.all_aspects, line.1, line.2)
}

/// Whether `w` has the agents of `v` and knows whatever `v` knows.
pub open spec fn space_grows(v: SpaceView, w: SpaceView) -> bool {
    &&& w.agents == v.agents
    &&& well_formed(v.all_aspects) ==> well_formed(w.all_aspects)
    &&& forall|e: Key, x: Key| #[trigger]
        holds(v.all_aspects, e, x) ==> holds(w.all_aspects, e, x)
    &&& ledger_known(v) && well_formed(v.all_aspects) ==> ledger_known(w)
}

/// Whether the step from `s` to `t` was quiet: the connections and the open
/// addresses are the same, no space is gone, every space has the agents that
/// it had and knows whatever it knew, and the outbox has only been added to.
pub open spec fn quiet(s: Sim2hView, t: Sim2hView) -> bool {
    &&& t.connections == s.connections
    &&& t.open == s.open
    &&& t.inbox == s.inbox
    &&& t.algorithm == s.algorithm
    &&& t.bound_uri == s.bound_uri
    &&& t.resync_at == s.resync_at
    &&& t.ticks == s.ticks
    &&& extends(s.outbox, t.outbox)
    &&& extends(s.reports, t.reports)
    &&& forall|sp: Key| s.spaces.contains_key(sp) ==> #[trigger] t.spaces.contains_key(sp)
    &&& forall|sp: Key| #[trigger]
        t.spaces.contains_key(sp) ==> space_grows(s.space(sp), t.spaces[sp])
}

/// A space grows into itself, and growth is transitive.
pub proof fn lemma_space_grows(u: SpaceView, v: SpaceView, w: SpaceView)
    ensures
        space_grows(u, u),
        space_grows(u, v) && space_grows(v, w) ==> space_grows(u, w),
{
}

/// Standing still is quiet.
pub proof fn lemma_quiet_refl(s: Sim2hView)
    ensures
        quiet(s, s),
{
    lemma_extends(s.outbox, s.outbox, s.outbox, arbitrary());
    lemma_extends(s.reports, s.reports, s.reports, arbitrary());
}

/// A quiet step after a quiet step is quiet.
pub proof fn lemma_quiet_chain(s: Sim2hView, m: Sim2hView, t: Sim2hView)
    requires
        quiet(s, m),
        quiet(m, t),
    ensures
        quiet(s, t),
{
    lemma_extends(s.outbox, m.outbox, t.outbox, arbitrary());
    lemma_extends(s.reports, m.reports, t.reports, arbitrary());
    assert forall|sp: Key| #[trigger] t.spaces.contains_key(sp) implies space_grows(
        s.space(sp),
        t.spaces[sp],
    ) by {
        assert(space_grows(m.space(sp), t.spaces[sp]));
        if m.spaces.contains_key(sp) {
            assert(space_grows(s.space(sp), m.spaces[sp]));
        } else {
            assert(!s.spaces.contains_key(sp));
        }
        lemma_space_grows(s.space(sp), m.space(sp), t.spaces[sp]);
    }
}

/// A step that only sends is quiet.
pub proof fn lemma_only_sent_quiet(s: Sim2hView, t: Sim2hView)
    requires
        only_sent(s, t),
    ensures
        quiet(s, t),
{
    assert forall|sp: Key| #[trigger] t.spaces.contains_key(sp) implies space_grows(
        s.space(sp),
        t.spaces[sp],
    ) by {
        lemma_space_grows(s.space(sp), s.space(sp), s.space(sp));
    }
}

/// Reporting is quiet.
pub proof fn lemma_report_quiet(s: Sim2hView, r: Result<(), crate::error::Sim2hError>)
    ensures
        quiet(s, s.report_outcome(r)),
{
    lemma_extends(s.outbox, s.outbox, s.outbox, arbitrary());
    match r {
        Ok(_) => {
            lemma_extends(s.reports, s.reports, s.reports, arbitrary());
        },
        Err(e) => {
            lemma_extends(s.reports, s.reports, s.reports, e);
        },
    }
    let t = s.report_outcome(r);
    assert forall|sp: Key| #[trigger] t.spaces.contains_key(sp) implies space_grows(
        s.space(sp),
        t.spaces[sp],
    ) by {
        lemma_space_grows(s.space(sp), s.space(sp), s.space(sp));
    }
}

/// Putting a space in the place of one that it grew from is quiet.
pub proof fn lemma_put_space_quiet(s: Sim2hView, sp: Key, w: SpaceView)
    requires
        space_grows(s.space(sp), w),
    ensures
        quiet(s, s.put_space(sp, w)),
{
    let t = s.put_space(sp, w);
    lemma_extends(s.outbox, s.outbox, s.outbox, arbitrary());
    lemma_extends(s.reports, s.reports, s.reports, arbitrary());
    assert forall|k: Key| #[trigger] t.spaces.contains_key(k) implies space_grows(
        s.space(k),
        t.spaces[k],
    ) by {
        if k != sp {
            lemma_space_grows(s.space(k), s.space(k), s.space(k));
        }
    }
}

/// A space that has been told of more aspects of an entry has grown.
pub proof fn lemma_with_entry_aspects_grows(
    v: SpaceView,
    entry: Key,
    aspects: Seq<EntryAspectDataView>,
    i: int,
)
    requires
        well_formed(v.all_aspects),
    ensures
        space_grows(v, with_entry_aspects_from(v, entry, aspects, i)),
        with_entry_aspects_from(v, entry, aspects, i).missing == v.missing,
        with_entry_aspects_from(v, entry, aspects, i).locations == v.locations,
    decreases aspects.len() - i,
{
    if 0 <= i < aspects.len() {
        let w = SpaceView {
            all_aspects: with_aspect(v.all_aspects, entry, aspects[i].aspect_address),
            ..v
        };
        lemma_with_aspect(v.all_aspects, entry, aspects[i].aspect_address);
        lemma_with_entry_aspects_grows(w, entry, aspects, i + 1);
        let z = with_entry_aspects_from(w, entry, aspects, i + 1);
        assert(space_grows(v, w));
        lemma_space_grows(v, w, z);
    }
}

/// Whether `a` lists every aspect that it holds at an index.
pub proof fn lemma_listed_holds(a: Aspects, k: int, j: int)
    requires
        distinct_keys(a),
        0 <= k < a.len(),
        0 <= j < a[k].1.len(),
    ensures
        holds(a, a[k].0, a[k].1[j]),
{
    lemma_position_unique(a, k);
    assert(aspects_of(a, a[k].0) == a[k].1);
}

/// The lines that noting the aspects of one entry adds are about aspects of
/// that entry.
pub proof fn lemma_note_entry(
    ledger: Seq<Missing>,
    agent: Key,
    entry: Key,
    aspects: Seq<Key>,
    j: int,
    known: Aspects,
)
    requires
        forall|line: Missing| #[trigger] ledger.contains(line) ==> holds(known, line.1, line.2),
        forall|k: int| 0 <= k < aspects.len() ==> holds(known, entry, #[trigger] aspects[k]),
    ensures
        forall|line: Missing| #[trigger]
            note_entry_from(ledger, agent, entry, aspects, j).contains(line) ==> holds(
                known,
                line.1,
                line.2,
            ),
    decreases aspects.len() - j,
{
    if 0 <= j < aspects.len() {
        let next = with_missing(ledger, (agent, entry, aspects[j]));
        assert forall|line: Missing| #[trigger] next.contains(line) implies holds(
            known,
            line.1,
            line.2,
        ) by {
            if !ledger.contains(line) {
                let p = choose|p: int| 0 <= p < next.len() && next[p] == line;
                if p < ledger.len() {
                    assert(ledger[p] == line);
                }
                assert(line == (agent, entry, aspects[j]));
            }
        }
        lemma_note_entry(next, agent, entry, aspects, j + 1, known);
        assert(note_entry_from(ledger, agent, entry, aspects, j) == note_entry_from(
            next,
            agent,
            entry,
            aspects,
            j + 1,
        ));
    } else {
        assert(note_entry_from(ledger, agent, entry, aspects, j) == ledger);
    }
}

/// The lines that noting what an agent lacks adds are about aspects that the
/// list of what it lacks holds.
pub proof fn lemma_note_missing(ledger: Seq<Missing>, agent: Key, missing: Aspects, i: int, known: Aspects)
    requires
        distinct_keys(missing),
        forall|line: Missing| #[trigger] ledger.contains(line) ==> holds(known, line.1, line.2),
        forall|e: Key, x: Key| #[trigger] holds(missing, e, x) ==> holds(known, e, x),
    ensures
        forall|line: Missing| #[trigger]
            note_missing_from(ledger, agent, missing, i).contains(line) ==> holds(
                known,
                line.1,
                line.2,
            ),
    decreases missing.len() - i,
{
    if 0 <= i < missing.len() {
        assert forall|k: int| 0 <= k < missing[i].1.len() implies holds(
            known,
            missing[i].0,
            #[trigger] missing[i].1[k],
        ) by {
            lemma_listed_holds(missing, i, k);
        }
        lemma_note_entry(ledger, agent, missing[i].0, missing[i].1, 0, known);
        let next = note_entry_from(ledger, agent, missing[i].0, missing[i].1, 0);
        lemma_note_missing(next, agent, missing, i + 1, known);
        assert(note_missing_from(ledger, agent, missing, i) == note_missing_from(
            next,
            agent,
            missing,
            i + 1,
        ));
    } else {
        assert(note_missing_from(ledger, agent, missing, i) == ledger);
    }
}

/// The shard of an agent is part of the list that it is taken from.
pub proof fn lemma_shard_of(v: SpaceView, a: Aspects, agent: Key, r: nat)
    requires
        well_formed(a),
    ensures
        well_formed(shard_of(v, a, agent, r)),
        forall|e: Key| #[trigger]
            has_key(shard_of(v, a, agent, r), e) ==> has_key(a, e) && lookup(
                shard_of(v, a, agent, r),
                e,
            ) == lookup(a, e),
        forall|e: Key, x: Key| #[trigger]
            holds(shard_of(v, a, agent, r), e, x) ==> holds(a, e, x),
    decreases a.len(),
{
    let sh = shard_of(v, a, agent, r);
    if a.len() > 0 {
        let front = a.drop_last();
        let n = front.len() as int;
        crate::aspect_list::lemma_take_well_formed(a, n);
        assert(a.take(n) =~= front);
        lemma_shard_of(v, front, agent, r);
        let sf = shard_of(v, front, agent, r);
        crate::aspect_list::lemma_absent_before(a, n);
        lemma_position_unique(a, n);
        assert forall|e: Key| has_key(front, e) implies has_key(a, e) && lookup(front, e)
            == lookup(a, e) by {
            let p = position(front, e);
            assert(a[p] == front[p]);
            lemma_position_unique(a, p);
            lemma_position_unique(front, p);
        }
        if in_shard(v, agent, r, a.last().0) {
            assert(sh == sf.push(a.last()));
            assert(!has_key(sf, a.last().0));
            assert(distinct_keys(sh)) by {
                assert forall|i: int, j: int| 0 <= i < j < sh.len() implies (#[trigger] sh[i]).0
                    != (#[trigger] sh[j]).0 by {
                    if j < sf.len() {
                        assert(sf[i].0 != sf[j].0);
                    } else {
                        assert(sh[i] == sf[i]);
                    }
                }
            }
            assert forall|i: int| 0 <= i < sh.len() implies (#[trigger] sh[i]).1.no_duplicates() by {
                if i < sf.len() {
                    assert(sh[i] == sf[i]);
                } else {
                    assert(sh[i] == a[n]);
                }
            }
            lemma_position_unique(sh, sf.len() as int);
            assert forall|e: Key| #[trigger] has_key(sh, e) implies has_key(a, e) && lookup(sh, e)
                == lookup(a, e) by {
                let p = position(sh, e);
                if p < sf.len() {
                    assert(sf[p] == sh[p]);
                    lemma_position_unique(sf, p);
                    lemma_position_unique(sh, p);
                    assert(has_key(sf, e));
                } else {
                    lemma_position_unique(sh, p);
                }
            }
        } else {
            assert(sh == sf);
        }
    }
    assert forall|e: Key, x: Key| #[trigger] holds(sh, e, x) implies holds(a, e, x) by {
        if has_key(sh, e) {
            assert(lookup(sh, e) == lookup(a, e));
        } else {
            assert(aspects_of(sh, e) =~= Seq::<Key>::empty());
        }
    }
}

/// What is struck from a ledger leaves lines of the ledger.
pub proof fn lemma_without_missing(ledger: Seq<Missing>, line: Missing)
    ensures
        forall|l: Missing| #[trigger]
            without_missing(ledger, line).contains(l) ==> ledger.contains(l),
{
    let t = without_missing(ledger, line);
    if ledger.contains(line) {
        let p = ledger.index_of(line);
        assert forall|l: Missing| #[trigger] t.contains(l) implies ledger.contains(l) by {
            let q = choose|q: int| 0 <= q < t.len() && t[q] == l;
            assert(ledger[if q < p { q } else { q + 1 }] == l);
        }
    }
}

impl Sim2hView {
    /// Making sure that a space exists is quiet.
    pub proof fn lemma_ensure_space_quiet(self, sp: Key)
        ensures
            quiet(self, self.ensure_space(sp)),
    {
        lemma_space_grows(self.space(sp), self.space(sp), self.space(sp));
        lemma_put_space_quiet(self, sp, self.space(sp));
    }

    /// Sending is quiet.
    pub proof fn lemma_send_quiet(self, agent: Key, uri: Key, msg: WireMessageView)
        ensures
            quiet(self, self.send(agent, uri, msg)),
    {
        lemma_send_frame(self, agent, uri, msg);
        lemma_only_sent_quiet(self, self.send(agent, uri, msg));
    }

    /// Logging is quiet.
    pub proof fn lemma_logged_quiet(
        self,
        direction: crate::message_log::Direction,
        agent: Key,
        uri: Key,
        msg: WireMessageView,
    )
        ensures
            quiet(self, self.logged(direction, agent, uri, msg)),
            self.wf() ==> self.logged(direction, agent, uri, msg).wf(),
    {
        lemma_quiet_refl(self);
        let t = self.logged(direction, agent, uri, msg);
        assert forall|sp: Key| #[trigger] t.spaces.contains_key(sp) implies space_grows(
            self.space(sp),
            t.spaces[sp],
        ) by {
            lemma_space_grows(self.space(sp), self.space(sp), self.space(sp));
        }
    }

    /// Taking in a new entry is quiet.
    pub proof fn lemma_new_entry_quiet(self, entry: EntryDataView, sp: Key, provider: Key)
        requires
            self.wf(),
        ensures
            quiet(self, self.handle_new_entry_data(entry, sp, provider)),
    {
        let targets = self.replica_set(sp, entry.entry_location, provider);
        let space = self.space(sp);
        let located = SpaceView {
            locations: crate::assoc::put(
                space.locations,
                entry.entry_address,
                entry.entry_location,
            ),
            ..space
        };
        assert(well_formed(space.all_aspects));
        lemma_with_entry_aspects_grows(located, entry.entry_address, entry.aspect_list, 0);
        let w = with_entry_aspects_from(located, entry.entry_address, entry.aspect_list, 0);
        assert(space_grows(space, located));
        lemma_space_grows(space, located, w);
        lemma_put_space_quiet(self, sp, w);
        let m = self.put_space(sp, w);
        lemma_store_frame(m, sp, provider, entry.entry_address, entry.aspect_list, targets, 0);
        let t = m.store_from(sp, provider, entry.entry_address, entry.aspect_list, targets, 0);
        lemma_only_sent_quiet(m, t);
        lemma_quiet_chain(self, m, t);
    }

    /// Asking for what a list brings that the space has not been told of is
    /// quiet.
    pub proof fn lemma_unseen_quiet(self, uri: Key, sp: Key, agent: Key, pairs: Aspects)
        ensures
            quiet(self, self.handle_unseen_aspects(uri, sp, agent, pairs)),
            self.handle_unseen_aspects(uri, sp, agent, pairs).spaces == self.ensure_space(
                sp,
            ).spaces,
    {
        let unseen = diff(from_pairs(pairs), self.space(sp).all_aspects);
        let m = self.ensure_space(sp);
        self.lemma_ensure_space_quiet(sp);
        lemma_request_unseen_frame(m, uri, sp, agent, unseen, 0);
        let t = m.request_unseen_from(uri, sp, agent, unseen, 0);
        lemma_only_sent_quiet(m, t);
        lemma_quiet_chain(self, m, t);
    }

    /// Taking in the list of what an agent holds is quiet, and what it notes
    /// in the ledger is about aspects that the space has been told of.
    pub proof fn lemma_gossiping_quiet(self, uri: Key, sp: Key, agent: Key, pairs: Aspects)
        requires
            self.wf(),
        ensures
            quiet(self, self.handle_gossiping_list(uri, sp, agent, pairs)),
    {
        let s1 = self.handle_unseen_aspects(uri, sp, agent, pairs);
        self.lemma_unseen_quiet(uri, sp, agent, pairs);
        let space = s1.space(sp);
        assert(space == self.space(sp));
        assert(well_formed(space.all_aspects));
        let expected = s1.expected_of(sp, agent);
        let reported = from_pairs(pairs);
        let missing = diff(expected, reported);
        match s1.algorithm {
            DhtAlgorithm::FullSync => {},
            DhtAlgorithm::NaiveSharding { redundant_count } => {
                lemma_shard_of(space, space.all_aspects, agent, redundant_count as nat);
            },
        }
        assert(well_formed(expected));
        lemma_diff(expected, reported);
        if missing.len() == 0 {
        } else {
            let noted = SpaceView {
                missing: note_missing_from(space.missing, agent, missing, 0),
                ..space
            };
            assert(space_grows(space, noted)) by {
                if ledger_known(space) {
                    assert forall|e: Key, x: Key| #[trigger]
                        holds(missing, e, x) implies holds(space.all_aspects, e, x) by {
                        assert(holds(expected, e, x));
                    }
                    lemma_note_missing(space.missing, agent, missing, 0, space.all_aspects);
                }
            }
            lemma_put_space_quiet(s1, sp, noted);
            let s2 = s1.put_space(sp, noted);
            lemma_quiet_chain(self, s1, s2);
            match self.algorithm {
                DhtAlgorithm::FullSync => {
                    if space.agents.len() != 1 {
                        lemma_fetch_frame(
                            s2,
                            missing,
                            agent,
                            crate::model::member_ids(space.agents),
                            sp,
                        );
                        let t = s2.fetch_aspects_from_arbitrary_agent(
                            missing,
                            agent,
                            crate::model::member_ids(space.agents),
                            sp,
                        );
                        lemma_only_sent_quiet(s2, t);
                        lemma_quiet_chain(self, s2, t);
                    }
                },
                DhtAlgorithm::NaiveSharding { redundant_count } => {
                    lemma_fetch_by_shard_frame(s2, missing, agent, sp, redundant_count, 0);
                    let t = s2.fetch_by_shard_from(missing, agent, sp, redundant_count, 0);
                    lemma_only_sent_quiet(s2, t);
                    lemma_quiet_chain(self, s2, t);
                },
            }
        }
    }

    /// Handing fetched aspects on to the agent that they are for is quiet.
    pub proof fn lemma_deliver_quiet(
        self,
        sp: Key,
        provider: Key,
        to: Key,
        uri: Key,
        entry: Key,
        aspects: Seq<EntryAspectDataView>,
        i: int,
    )
        ensures
            quiet(self, self.deliver_from(sp, provider, to, uri, entry, aspects, i)),
        decreases aspects.len() - i,
    {
        if 0 <= i < aspects.len() {
            let space = self.space(sp);
            let line = (to, entry, aspects[i].aspect_address);
            let struck = SpaceView { missing: without_missing(space.missing, line), ..space };
            lemma_without_missing(space.missing, line);
            assert(space_grows(space, struck));
            lemma_put_space_quiet(self, sp, struck);
            let m1 = self.put_space(sp, struck);
            let msg = crate::model::store_request(sp, provider, entry, aspects[i]);
            m1.lemma_send_quiet(to, uri, msg);
            let m2 = m1.send(to, uri, msg);
            lemma_quiet_chain(self, m1, m2);
            m2.lemma_deliver_quiet(sp, provider, to, uri, entry, aspects, i + 1);
            lemma_quiet_chain(
                self,
                m2,
                m2.deliver_from(sp, provider, to, uri, entry, aspects, i + 1),
            );
        } else {
            lemma_quiet_refl(self);
        }
    }

    /// Taking in the answer to a request for an entry is quiet.
    pub proof fn lemma_fetch_result_quiet(self, sp: Key, agent: Key, d: FetchEntryResultDataView)
        requires
            self.wf(),
        ensures
            quiet(self, self.handle_fetch_entry_result(sp, agent, d)),
    {
        if d.request_id.len() == 0 {
            self.lemma_new_entry_quiet(d.entry, sp, agent);
        } else {
            match self.lookup_joined(sp, d.request_id) {
                Some(uri) => {
                    self.lemma_deliver_quiet(
                        sp,
                        agent,
                        d.request_id,
                        uri,
                        d.entry.entry_address,
                        d.entry.aspect_list,
                        0,
                    );
                },
                None => {
                    lemma_quiet_refl(self);
                },
            }
        }
    }

    /// Passing a query on is quiet.
    pub proof fn lemma_query_quiet(self, sp: Key, q: QueryEntryDataView)
        ensures
            quiet(self, self.handle_query_entry(sp, q).0),
    {
        match self.algorithm {
            DhtAlgorithm::FullSync => {
                lemma_quiet_refl(self);
            },
            DhtAlgorithm::NaiveSharding { redundant_count } => {
                let candidates = self.query_candidates(
                    sp,
                    q.entry_address,
                    q.entry_location,
                    redundant_count,
                );
                let s0 = self.ensure_space(sp);
                self.lemma_ensure_space_quiet(sp);
                let s1 = if candidates.len() == 0 {
                    s0
                } else {
                    Sim2hView { seed: crate::model::next_seed(self.seed), ..s0 }
                };
                crate::frame::lemma_only_outbox_refl(s0);
                assert(only_sent(s0, s1));
                lemma_only_sent_quiet(s0, s1);
                lemma_quiet_chain(self, s0, s1);
                let t = self.handle_query_entry(sp, q).0;
                let target = if candidates.len() == 0 {
                    q.requester_agent_id
                } else {
                    crate::model::drawn(candidates, self.seed)[0]
                };
                match s1.lookup_joined(sp, target) {
                    Some(uri) => {
                        s1.lemma_send_quiet(
                            target,
                            uri,
                            WireMessageView::Lib3hToClient(
                                crate::protocol::Lib3hToClientView::HandleQueryEntry(q),
                            ),
                        );
                    },
                    None => {
                        lemma_quiet_refl(s1);
                    },
                }
                lemma_quiet_chain(self, s1, t);
            },
        }
    }

    /// Passing a message on to another agent is quiet.
    pub proof fn lemma_proxy_quiet(self, sp: Key, to: Key, msg: WireMessageView)
        ensures
            quiet(self, self.proxy(sp, to, msg).0),
    {
        match self.lookup_joined(sp, to) {
            Some(uri) => {
                self.lemma_send_quiet(to, uri, msg);
            },
            None => {
                lemma_quiet_refl(self);
            },
        }
    }

    /// What handling a message on a joined connection comes to: the agent
    /// leaves, or the step is quiet.
    pub proof fn lemma_handle_joined(self, uri: Key, sp: Key, agent: Key, msg: WireMessageView)
        requires
            self.wf(),
        ensures
            quiet(self, self.handle_joined(uri, sp, agent, msg).0) || self.handle_joined(
                uri,
                sp,
                agent,
                msg,
            ).0 == self.disconnect(uri),
    {
        lemma_quiet_refl(self);
        match msg {
            WireMessageView::ClientToLib3h(ClientToLib3hView::SendDirectMessage(d)) => {
                self.lemma_proxy_quiet(
                    sp,
                    d.to_agent_id,
                    WireMessageView::Lib3hToClient(
                        crate::protocol::Lib3hToClientView::HandleSendDirectMessage(d),
                    ),
                );
            },
            WireMessageView::Lib3hToClientResponse(
                Lib3hToClientResponseView::HandleSendDirectMessageResult(d),
            ) => {
                self.lemma_proxy_quiet(
                    sp,
                    d.to_agent_id,
                    WireMessageView::Lib3hToClient(
                        crate::protocol::Lib3hToClientView::SendDirectMessageResult(d),
                    ),
                );
            },
            WireMessageView::ClientToLib3h(ClientToLib3hView::PublishEntry(d)) => {
                self.lemma_new_entry_quiet(d.entry, sp, agent);
            },
            WireMessageView::Lib3hToClientResponse(
                Lib3hToClientResponseView::HandleGetAuthoringEntryListResult(d),
            ) => {
                self.lemma_unseen_quiet(uri, sp, agent, d.address_map);
            },
            WireMessageView::Lib3hToClientResponse(
                Lib3hToClientResponseView::HandleGetGossipingEntryListResult(d),
            ) => {
                self.lemma_gossiping_quiet(uri, sp, agent, d.address_map);
            },
            WireMessageView::Lib3hToClientResponse(
                Lib3hToClientResponseView::HandleFetchEntryResult(d),
            ) => {
                self.lemma_fetch_result_quiet(sp, agent, d);
            },
            WireMessageView::ClientToLib3h(ClientToLib3hView::QueryEntry(q)) => {
                self.lemma_query_quiet(sp, q);
            },
            WireMessageView::Lib3hToClientResponse(
                Lib3hToClientResponseView::HandleQueryEntryResult(d),
            ) => {
                self.lemma_proxy_quiet(
                    sp,
                    d.requester_agent_id,
                    WireMessageView::ClientToLib3hResponse(
                        crate::protocol::ClientToLib3hResponseView::QueryEntryResult(d),
                    ),
                );
            },
            _ => {},
        }
    }

    /// What handling a message on a connection that is not in limbo comes
    /// to: the message is logged and the agent leaves, or the step is quiet.
    pub proof fn lemma_handle_established(self, uri: Key, msg: WireMessageView, signer: Key)
        requires
            self.wf(),
        ensures
            quiet(self, self.handle_established(uri, msg, signer).0) || self.handle_established(
                uri,
                msg,
                signer,
            ).0 == self.logged(crate::message_log::Direction::In, signer, uri, msg).disconnect(uri),
    {
        let s = self.logged(crate::message_log::Direction::In, signer, uri, msg);
        self.lemma_logged_quiet(crate::message_log::Direction::In, signer, uri, msg);
        if msg is Ping {
            self.lemma_send_quiet(signer, uri, WireMessageView::Pong);
        } else if msg is Status {
            self.lemma_send_quiet(signer, uri, WireMessageView::StatusResponse(self.status()));
        } else if s.connections.contains_key(uri) {
            match s.connections[uri] {
                crate::connection_state::ConnectionStateView::Joined(sp, agent) => {
                    if agent == signer {
                        s.lemma_handle_joined(uri, sp, agent, msg);
                        let t = s.handle_joined(uri, sp, agent, msg).0;
                        if quiet(s, t) {
                            lemma_quiet_chain(self, s, t);
                        }
                    }
                },
                crate::connection_state::ConnectionStateView::Limbo(_) => {},
            }
        }
    }
}

} // verus!
