//! The switchboard as mathematics: its state as maps, sets and sequences, and
//! each of its steps as a function from state to state. The executable
//! switchboard is proved to take exactly these steps.

use vstd::prelude::*;
use crate::agent_info::AgentInfoView;
use crate::aspect_list::{Aspects, diff, from_pairs, only_entry, with_aspect};
use crate::assoc::{del, Key, lookup, put};
use crate::connection_state::ConnectionStateView;
use crate::dht::DhtAlgorithm;
use crate::error::Sim2hError;
use crate::message_log::{Direction, MessageLogEntryView};
use crate::naive_sharding::{closest, Member};
use crate::protocol::{
    ClientToLib3hResponseView, ClientToLib3hView, EntryAspectDataView, EntryDataView,
    FetchEntryDataView, FetchEntryResultDataView, GetListDataView, Lib3hToClientResponseView,
    Lib3hToClientView, QueryEntryDataView, SpaceDataView, StoreEntryAspectDataView,
};
use crate::random::shuffled;
use crate::space::{
    claimed_by_other, ledger_agents, Missing, missing_all, missing_some, shard_of, SpaceView,
    with_missing, without_missing,
};
use crate::str_set::distinct;
use crate::websocket::{WsFrameView, WssCommandView, WssEventView};
use crate::wire_message::{StatusData, WIRE_VERSION, WireErrorView, WireMessageView};

verus! {

/// The most events that one tick takes from the inbox.
pub const EVENTS_PER_TICK: usize = 100;

/// The time, in milliseconds, between two rounds of asking the agents that
/// lack aspects for their lists again.
pub const RETRY_FETCH_MISSING_ASPECTS_INTERVAL_MS: u64 = 10000;

/// The number of ticks after which the tick counter starts over.
pub const TICKS_PER_ROUND: u64 = 60000;

/// Whether `m` is a message that only the switchboard may send. A client
/// that sends one over a joined connection breaks the protocol.
pub open spec fn server_only(m: WireMessageView) -> bool {
    m is Lib3hToClient || m is ClientToLib3hResponse
}

/// The request for the list of what `agent` has authored.
pub open spec fn authoring_list_request(sp: Key, agent: Key) -> WireMessageView {
    WireMessageView::Lib3hToClient(
        Lib3hToClientView::HandleGetAuthoringEntryList(
            GetListDataView {
                space_address: sp,
                provider_agent_id: agent,
                request_id: Seq::empty(),
            },
        ),
    )
}

/// The request for the list of what `agent` holds.
pub open spec fn gossiping_list_request(sp: Key, agent: Key) -> WireMessageView {
    WireMessageView::Lib3hToClient(
        Lib3hToClientView::HandleGetGossipingEntryList(
            GetListDataView {
                space_address: sp,
                provider_agent_id: agent,
                request_id: Seq::empty(),
            },
        ),
    )
}

/// The request to `provider` for the aspects `aspects` of `entry`. The
/// request names, as its id, the agent that the aspects are for; the id is
/// empty when they are for the switchboard itself.
pub open spec fn fetch_request(
    sp: Key,
    provider: Key,
    entry: Key,
    aspects: Seq<Key>,
    request_id: Key,
) -> WireMessageView {
    WireMessageView::Lib3hToClient(
        Lib3hToClientView::HandleFetchEntry(
            FetchEntryDataView {
                space_address: sp,
                entry_address: entry,
                request_id,
                provider_agent_id: provider,
                aspect_address_list: Some(aspects),
            },
        ),
    )
}

/// The message that hands `aspect` of `entry`, provided by `provider`, to an
/// agent to store.
pub open spec fn store_request(
    sp: Key,
    provider: Key,
    entry: Key,
    aspect: EntryAspectDataView,
) -> WireMessageView {
    WireMessageView::Lib3hToClient(
        Lib3hToClientView::HandleStoreEntryAspect(
            StoreEntryAspectDataView {
                request_id: Seq::empty(),
                space_address: sp,
                provider_agent_id: provider,
                entry_address: entry,
                entry_aspect: aspect,
            },
        ),
    )
}

/// The members of `agents` from position `i` on that are not `except`,
/// appended to `acc`.
pub open spec fn all_except_from(agents: Seq<Member>, except: Option<Key>, i: int, acc: Seq<Member>) -> Seq<
    Member,
>
    decreases agents.len() - i,
{
    if i < 0 || i >= agents.len() {
        acc
    } else if except == Some(agents[i].0) {
        all_except_from(agents, except, i + 1, acc)
    } else {
        all_except_from(agents, except, i + 1, acc.push(agents[i]))
    }
}

/// The members of `agents` that are not `except`, in order.
pub open spec fn all_except(agents: Seq<Member>, except: Option<Key>) -> Seq<Member> {
    all_except_from(agents, except, 0, Seq::empty())
}

/// The identifiers of `members`, in order.
pub open spec fn member_ids(members: Seq<Member>) -> Seq<Key> {
    Seq::new(members.len(), |i: int| members[i].0)
}

/// The space with the aspects of `aspects` from position `i` on noted for
/// `entry`.
pub open spec fn with_entry_aspects_from(
    space: SpaceView,
    entry: Key,
    aspects: Seq<EntryAspectDataView>,
    i: int,
) -> SpaceView
    decreases aspects.len() - i,
{
    if i < 0 || i >= aspects.len() {
        space
    } else {
        with_entry_aspects_from(
            SpaceView {
                all_aspects: with_aspect(space.all_aspects, entry, aspects[i].aspect_address),
                ..space
            },
            entry,
            aspects,
            i + 1,
        )
    }
}

/// The ledger with a line for `agent`, `entry` and each of `aspects` from
/// position `j` on.
pub open spec fn note_entry_from(ledger: Seq<Missing>, agent: Key, entry: Key, aspects: Seq<Key>, j: int) -> Seq<
    Missing,
>
    decreases aspects.len() - j,
{
    if j < 0 || j >= aspects.len() {
        ledger
    } else {
        note_entry_from(with_missing(ledger, (agent, entry, aspects[j])), agent, entry, aspects, j + 1)
    }
}

/// The ledger with a line for `agent` and every aspect of `missing` from
/// entry `i` on.
pub open spec fn note_missing_from(ledger: Seq<Missing>, agent: Key, missing: Aspects, i: int) -> Seq<
    Missing,
>
    decreases missing.len() - i,
{
    if i < 0 || i >= missing.len() {
        ledger
    } else {
        note_missing_from(
            note_entry_from(ledger, agent, missing[i].0, missing[i].1, 0),
            agent,
            missing,
            i + 1,
        )
    }
}

/// The first agent of `pool`, from position `i` on, that is not `for_agent`
/// and that the ledger does not show to lack every one of `aspects` of
/// `entry`.
pub open spec fn first_source_from(
    ledger: Seq<Missing>,
    entry: Key,
    aspects: Seq<Key>,
    for_agent: Key,
    pool: Seq<Key>,
    i: int,
) -> Option<Key>
    decreases pool.len() - i,
{
    if i < 0 || i >= pool.len() {
        None
    } else if pool[i] != for_agent && !missing_all(ledger, pool[i], entry, aspects) {
        Some(pool[i])
    } else {
        first_source_from(ledger, entry, aspects, for_agent, pool, i + 1)
    }
}

/// The agents of `pool` from position `i` on that the ledger shows to lack
/// no aspect of `entry`, appended to `acc`.
pub open spec fn complete_holders_from(ledger: Seq<Missing>, entry: Key, pool: Seq<Key>, i: int, acc: Seq<
    Key,
>) -> Seq<Key>
    decreases pool.len() - i,
{
    if i < 0 || i >= pool.len() {
        acc
    } else if missing_some(ledger, pool[i], entry) {
        complete_holders_from(ledger, entry, pool, i + 1, acc)
    } else {
        complete_holders_from(ledger, entry, pool, i + 1, acc.push(pool[i]))
    }
}

/// Whether `order` names every key of `m` exactly once.
pub open spec fn enumerates<V>(order: Seq<Key>, m: Map<Key, V>) -> bool {
    &&& order.no_duplicates()
    &&& forall|k: Key| order.contains(k) <==> m.contains_key(k)
}

/// The model of the switchboard.
pub struct Sim2hView {
    /// The address that the adapter listens on, once it is bound.
    pub bound_uri: Option<Key>,
    /// The state of each connection, by its address.
    pub connections: Map<Key, ConnectionStateView>,
    /// The spaces, by their hashes.
    pub spaces: Map<Key, SpaceView>,
    /// The addresses that a frame can be sent to.
    pub open: Set<Key>,
    /// The events that wait to be handled, oldest first.
    pub inbox: Seq<WssEventView>,
    /// The commands for the adapter that have not been taken yet, oldest
    /// first.
    pub outbox: Seq<WssCommandView>,
    /// The errors that have been reported and not been taken yet, oldest
    /// first.
    pub reports: Seq<Sim2hError>,
    /// The lines of the message log that have not been taken yet, oldest
    /// first.
    pub message_log: Seq<MessageLogEntryView>,
    /// The replication policy.
    pub algorithm: DhtAlgorithm,
    /// The seed of the next shuffle.
    pub seed: u64,
    /// The time, in milliseconds, from which the next retry round is due.
    pub resync_at: u64,
    /// The ticks since the counter last started over.
    pub ticks: u64,
}

impl Sim2hView {
    /// What holds of every state that the switchboard reaches: its
    /// collections are finite and its spaces are well formed.
    pub open spec fn wf(self) -> bool {
        &&& self.connections.dom().finite()
        &&& self.spaces.dom().finite()
        &&& self.open.finite()
        &&& forall|sp: Key| self.spaces.contains_key(sp) ==> (#[trigger] self.spaces[sp]).wf()
        &&& self.ticks < TICKS_PER_ROUND
    }

    /// The state with one more line in the message log.
    pub open spec fn logged(self, direction: Direction, agent: Key, uri: Key, msg: WireMessageView) -> Sim2hView {
        Sim2hView {
            message_log: self.message_log.push(
                MessageLogEntryView { direction, agent, uri, message: msg },
            ),
            ..self
        }
    }

    /// The state with `msg` sent to `agent` at `uri`. Unless it is a ping or
    /// a pong, the message is logged. A message for an address that is not
    /// open is dropped, which is reported.
    pub open spec fn send(self, agent: Key, uri: Key, msg: WireMessageView) -> Sim2hView {
        let s = if msg is Ping || msg is Pong {
            self
        } else {
            self.logged(Direction::Out, agent, uri, msg)
        };
        if s.open.contains(uri) {
            Sim2hView { outbox: s.outbox.push(WssCommandView::SendMessage(uri, msg)), ..s }
        } else {
            s.report(Sim2hError::NoRoute)
        }
    }

    /// The state with `e` reported.
    pub open spec fn report(self, e: Sim2hError) -> Sim2hView {
        Sim2hView { reports: self.reports.push(e), ..self }
    }

    /// The state with the outcome of a step reported if it is an error.
    pub open spec fn report_outcome(self, r: Result<(), Sim2hError>) -> Sim2hView {
        match r {
            Ok(_) => self,
            Err(e) => self.report(e),
        }
    }

    /// The space `sp`, or a new one if there is none.
    pub open spec fn space(self, sp: Key) -> SpaceView {
        if self.spaces.contains_key(sp) {
            self.spaces[sp]
        } else {
            SpaceView::empty()
        }
    }

    /// The state with `v` as the space `sp`.
    pub open spec fn put_space(self, sp: Key, v: SpaceView) -> Sim2hView {
        Sim2hView { spaces: self.spaces.insert(sp, v), ..self }
    }

    /// The state in which the space `sp` exists.
    pub open spec fn ensure_space(self, sp: Key) -> Sim2hView {
        self.put_space(sp, self.space(sp))
    }

    /// The address of `agent` in the space `sp`, if the space exists and the
    /// agent has joined it.
    pub open spec fn lookup_joined(self, sp: Key, agent: Key) -> Option<Key> {
        if self.spaces.contains_key(sp) {
            match lookup(self.spaces[sp].agents, agent) {
                Some(info) => Some(info.uri),
                None => None,
            }
        } else {
            None
        }
    }

    /// The state after the connection from `uri` is given up: the adapter is
    /// told to close it, and the agent that had joined over it, if any,
    /// leaves its space, which goes with its last agent.
    pub open spec fn disconnect(self, uri: Key) -> Sim2hView {
        let base = Sim2hView {
            open: self.open.remove(uri),
            outbox: self.outbox.push(WssCommandView::CloseConnection(uri)),
            connections: self.connections.remove(uri),
            ..self
        };
        if self.connections.contains_key(uri) {
            match self.connections[uri] {
                ConnectionStateView::Joined(sp, agent) => {
                    if self.spaces.contains_key(sp) {
                        let left = SpaceView {
                            agents: del(self.spaces[sp].agents, agent),
                            ..self.spaces[sp]
                        };
                        if left.agents.len() == 0 {
                            Sim2hView { spaces: self.spaces.remove(sp), ..base }
                        } else {
                            Sim2hView { spaces: self.spaces.insert(sp, left), ..base }
                        }
                    } else {
                        base
                    }
                },
                ConnectionStateView::Limbo(_) => base,
            }
        } else {
            base
        }
    }

    /// The state with `msg` sent to each of `agents` from position `i` on.
    pub open spec fn broadcast_from(self, msg: WireMessageView, agents: Seq<Member>, i: int) -> Sim2hView
        decreases agents.len() - i,
    {
        if i < 0 || i >= agents.len() {
            self
        } else {
            self.send(agents[i].0, agents[i].1.uri, msg).broadcast_from(msg, agents, i + 1)
        }
    }

    /// The state with each aspect of `aspects`, from position `i` on, handed
    /// to every one of `targets` to store.
    pub open spec fn store_from(
        self,
        sp: Key,
        provider: Key,
        entry: Key,
        aspects: Seq<EntryAspectDataView>,
        targets: Seq<Member>,
        i: int,
    ) -> Sim2hView
        decreases aspects.len() - i,
    {
        if i < 0 || i >= aspects.len() {
            self
        } else {
            self.broadcast_from(store_request(sp, provider, entry, aspects[i]), targets, 0).store_from(
                sp,
                provider,
                entry,
                aspects,
                targets,
                i + 1,
            )
        }
    }

    /// The agents that are to store an entry at `loc` which `provider`
    /// brought: under full sync every other agent of the space, under naive
    /// sharding the nearest agents.
    pub open spec fn replica_set(self, sp: Key, loc: u32, provider: Key) -> Seq<Member> {
        match self.algorithm {
            DhtAlgorithm::FullSync => all_except(self.space(sp).agents, Some(provider)),
            DhtAlgorithm::NaiveSharding { redundant_count } => closest(
                self.space(sp).agents,
                loc,
                redundant_count as nat,
            ),
        }
    }

    /// The state after `provider` brought `entry` into the space `sp`: the
    /// space knows the place of the entry and each of its aspects, and each
    /// aspect has been handed to the agents that are to store it.
    pub open spec fn handle_new_entry_data(self, entry: EntryDataView, sp: Key, provider: Key) -> Sim2hView {
        let targets = self.replica_set(sp, entry.entry_location, provider);
        let space = self.space(sp);
        let located = SpaceView {
            locations: put(space.locations, entry.entry_address, entry.entry_location),
            ..space
        };
        self.put_space(
            sp,
            with_entry_aspects_from(located, entry.entry_address, entry.aspect_list, 0),
        ).store_from(sp, provider, entry.entry_address, entry.aspect_list, targets, 0)
    }

    /// The state with a request to `uri` for each entry of `unseen` from
    /// position `i` on.
    pub open spec fn request_unseen_from(self, uri: Key, sp: Key, agent: Key, unseen: Aspects, i: int) -> Sim2hView
        decreases unseen.len() - i,
    {
        if i < 0 || i >= unseen.len() {
            self
        } else {
            self.send(
                agent,
                uri,
                fetch_request(sp, agent, unseen[i].0, unseen[i].1, Seq::empty()),
            ).request_unseen_from(uri, sp, agent, unseen, i + 1)
        }
    }

    /// The state after `agent`, at `uri`, reported the list `pairs`: the
    /// switchboard asks it for every aspect of the list that the space has
    /// not been told of.
    pub open spec fn handle_unseen_aspects(self, uri: Key, sp: Key, agent: Key, pairs: Aspects) -> Sim2hView {
        let unseen = diff(from_pairs(pairs), self.space(sp).all_aspects);
        self.ensure_space(sp).request_unseen_from(uri, sp, agent, unseen, 0)
    }

    /// The state with a request, for each entry of `aspects` from position
    /// `i` on, to the first agent of `pool` that can help `for_agent` with
    /// it. An entry that nobody can help with is left for the next retry
    /// round.
    pub open spec fn fetch_from(self, aspects: Aspects, for_agent: Key, pool: Seq<Key>, sp: Key, i: int) -> Sim2hView
        decreases aspects.len() - i,
    {
        if i < 0 || i >= aspects.len() {
            self
        } else {
            let source = if self.spaces.contains_key(sp) {
                first_source_from(
                    self.spaces[sp].missing,
                    aspects[i].0,
                    aspects[i].1,
                    for_agent,
                    pool,
                    0,
                )
            } else {
                None
            };
            match source {
                Some(a) => match self.lookup_joined(sp, a) {
                    Some(uri) => self.send(
                        a,
                        uri,
                        fetch_request(sp, a, aspects[i].0, aspects[i].1, for_agent),
                    ).fetch_from(aspects, for_agent, pool, sp, i + 1),
                    None => self,
                },
                None => self.fetch_from(aspects, for_agent, pool, sp, i + 1),
            }
        }
    }

    /// The state after the switchboard asked agents of `pool`, in shuffled
    /// order, for the aspects `aspects` that `for_agent` lacks.
    pub open spec fn fetch_aspects_from_arbitrary_agent(
        self,
        aspects: Aspects,
        for_agent: Key,
        pool: Seq<Key>,
        sp: Key,
    ) -> Sim2hView {
        Sim2hView { seed: next_seed(self.seed), ..self }.fetch_from(
            aspects,
            for_agent,
            drawn(pool, self.seed),
            sp,
            0,
        )
    }

    /// The state after the switchboard asked, for each entry of `missing`
    /// from position `i` on, one of the agents nearest to the entry for the
    /// aspects that `agent` lacks of it.
    pub open spec fn fetch_by_shard_from(self, missing: Aspects, agent: Key, sp: Key, r: u64, i: int) -> Sim2hView
        decreases missing.len() - i,
    {
        if i < 0 || i >= missing.len() {
            self
        } else {
            let next = match lookup(self.space(sp).locations, missing[i].0) {
                Some(loc) => self.fetch_aspects_from_arbitrary_agent(
                    only_entry(missing, missing[i].0),
                    agent,
                    member_ids(closest(self.space(sp).agents, loc, r as nat)),
                    sp,
                ),
                None => self,
            };
            next.fetch_by_shard_from(missing, agent, sp, r, i + 1)
        }
    }

    /// What `agent` is expected to hold of the space `sp`: everything under
    /// full sync, its shard under naive sharding.
    pub open spec fn expected_of(self, sp: Key, agent: Key) -> Aspects {
        let space = self.space(sp);
        match self.algorithm {
            DhtAlgorithm::FullSync => space.all_aspects,
            DhtAlgorithm::NaiveSharding { redundant_count } => shard_of(
                space,
                space.all_aspects,
                agent,
                redundant_count as nat,
            ),
        }
    }

    /// The state after `agent`, at `uri`, reported the list `pairs` of what
    /// it holds: besides what `handle_unseen_aspects` does, the ledger notes
    /// what the agent is expected to hold and does not, and other agents are
    /// asked for it.
    pub open spec fn handle_gossiping_list(self, uri: Key, sp: Key, agent: Key, pairs: Aspects) -> Sim2hView {
        let s1 = self.handle_unseen_aspects(uri, sp, agent, pairs);
        let space = s1.space(sp);
        let missing = diff(s1.expected_of(sp, agent), from_pairs(pairs));
        if missing.len() == 0 {
            s1
        } else {
            let s2 = s1.put_space(
                sp,
                SpaceView { missing: note_missing_from(space.missing, agent, missing, 0), ..space },
            );
            match self.algorithm {
                DhtAlgorithm::FullSync => {
                    if space.agents.len() == 1 {
                        s2
                    } else {
                        s2.fetch_aspects_from_arbitrary_agent(
                            missing,
                            agent,
                            member_ids(space.agents),
                            sp,
                        )
                    }
                },
                DhtAlgorithm::NaiveSharding { redundant_count } => s2.fetch_by_shard_from(
                    missing,
                    agent,
                    sp,
                    redundant_count,
                    0,
                ),
            }
        }
    }

    /// The state with each aspect of `aspects`, from position `i` on, struck
    /// from what the ledger says `to` lacks of `entry`, and handed to `to` at
    /// `uri` to store.
    pub open spec fn deliver_from(
        self,
        sp: Key,
        provider: Key,
        to: Key,
        uri: Key,
        entry: Key,
        aspects: Seq<EntryAspectDataView>,
        i: int,
    ) -> Sim2hView
        decreases aspects.len() - i,
    {
        if i < 0 || i >= aspects.len() {
            self
        } else {
            let space = self.space(sp);
            self.put_space(
                sp,
                SpaceView {
                    missing: without_missing(space.missing, (to, entry, aspects[i].aspect_address)),
                    ..space
                },
            ).send(to, uri, store_request(sp, provider, entry, aspects[i])).deliver_from(
                sp,
                provider,
                to,
                uri,
                entry,
                aspects,
                i + 1,
            )
        }
    }

    /// The state after `agent` answered a request for an entry. An answer
    /// without a request id brings what the agent authored; any other id
    /// names the agent that the aspects are for.
    pub open spec fn handle_fetch_entry_result(self, sp: Key, agent: Key, d: FetchEntryResultDataView) -> Sim2hView {
        if d.request_id.len() == 0 {
            self.handle_new_entry_data(d.entry, sp, agent)
        } else {
            match self.lookup_joined(sp, d.request_id) {
                Some(uri) => self.deliver_from(
                    sp,
                    agent,
                    d.request_id,
                    uri,
                    d.entry.entry_address,
                    d.entry.aspect_list,
                    0,
                ),
                None => self,
            }
        }
    }

    /// The agents that a query about `entry` at `loc` may go to under naive
    /// sharding with factor `r`: of the nearest agents those that lack no
    /// aspect of the entry, or all the nearest if there is none such.
    pub open spec fn query_candidates(self, sp: Key, entry: Key, loc: u32, r: u64) -> Seq<Key> {
        let space = self.space(sp);
        let pool = member_ids(closest(space.agents, loc, r as nat));
        let complete = complete_holders_from(space.missing, entry, pool, 0, Seq::empty());
        if complete.len() == 0 {
            pool
        } else {
            complete
        }
    }

    /// The state after a query about an entry arrived from a client.
    pub open spec fn handle_query_entry(self, sp: Key, q: QueryEntryDataView) -> (Sim2hView, Result<
        (),
        Sim2hError,
    >) {
        match self.algorithm {
            DhtAlgorithm::FullSync => (self, Err(Sim2hError::QueryInFullSync)),
            DhtAlgorithm::NaiveSharding { redundant_count } => {
                let candidates = self.query_candidates(
                    sp,
                    q.entry_address,
                    q.entry_location,
                    redundant_count,
                );
                let s0 = self.ensure_space(sp);
                let (s1, target) = if candidates.len() == 0 {
                    (s0, q.requester_agent_id)
                } else {
                    (
                        Sim2hView { seed: next_seed(self.seed), ..s0 },
                        drawn(candidates, self.seed)[0],
                    )
                };
                match s1.lookup_joined(sp, target) {
                    Some(uri) => (
                        s1.send(
                            target,
                            uri,
                            WireMessageView::Lib3hToClient(Lib3hToClientView::HandleQueryEntry(q)),
                        ),
                        Ok(()),
                    ),
                    None => (s1, Ok(())),
                }
            },
        }
    }

    /// The state after `msg` was passed on to `to` in the space `sp`, if that
    /// agent is there.
    pub open spec fn proxy(self, sp: Key, to: Key, msg: WireMessageView) -> (Sim2hView, Result<
        (),
        Sim2hError,
    >) {
        match self.lookup_joined(sp, to) {
            Some(uri) => (self.send(to, uri, msg), Ok(())),
            None => (self, Err(Sim2hError::UnvalidatedProxyAgent)),
        }
    }

    /// The state after the agent at `uri` asked to leave.
    pub open spec fn leave(self, uri: Key, d: SpaceDataView) -> (Sim2hView, Result<(), Sim2hError>) {
        if self.connections.contains_key(uri) {
            match self.connections[uri] {
                ConnectionStateView::Joined(sp, agent) => {
                    if d.agent_id != agent || d.space_address != sp {
                        (self, Err(Sim2hError::SpaceMismatch))
                    } else {
                        (self.disconnect(uri), Ok(()))
                    }
                },
                ConnectionStateView::Limbo(_) => (self, Err(Sim2hError::NotJoined)),
            }
        } else {
            (self, Err(Sim2hError::NotJoined))
        }
    }

    /// The state after the message `msg` arrived over the connection from
    /// `uri`, which has joined the space `sp` as `agent`.
    pub open spec fn handle_joined(self, uri: Key, sp: Key, agent: Key, msg: WireMessageView) -> (
        Sim2hView,
        Result<(), Sim2hError>,
    ) {
        match msg {
            WireMessageView::Lib3hToClient(_) => (self, Err(Sim2hError::WrongDirection)),
            WireMessageView::ClientToLib3hResponse(_) => (self, Err(Sim2hError::WrongDirection)),
            WireMessageView::ClientToLib3h(ClientToLib3hView::JoinSpace(_)) => (
                self,
                Err(Sim2hError::JoinNotProxied),
            ),
            WireMessageView::ClientToLib3h(ClientToLib3hView::LeaveSpace(d)) => self.leave(uri, d),
            WireMessageView::ClientToLib3h(ClientToLib3hView::SendDirectMessage(d)) => {
                if d.from_agent_id != agent || d.space_address != sp {
                    (self, Err(Sim2hError::SpaceMismatch))
                } else {
                    self.proxy(
                        sp,
                        d.to_agent_id,
                        WireMessageView::Lib3hToClient(
                            Lib3hToClientView::HandleSendDirectMessage(d),
                        ),
                    )
                }
            },
            WireMessageView::Lib3hToClientResponse(
                Lib3hToClientResponseView::HandleSendDirectMessageResult(d),
            ) => {
                if d.from_agent_id != agent || d.space_address != sp {
                    (self, Err(Sim2hError::SpaceMismatch))
                } else {
                    self.proxy(
                        sp,
                        d.to_agent_id,
                        WireMessageView::Lib3hToClient(
                            Lib3hToClientView::SendDirectMessageResult(d),
                        ),
                    )
                }
            },
            WireMessageView::ClientToLib3h(ClientToLib3hView::PublishEntry(d)) => {
                if d.provider_agent_id != agent || d.space_address != sp {
                    (self, Err(Sim2hError::SpaceMismatch))
                } else {
                    (self.handle_new_entry_data(d.entry, sp, agent), Ok(()))
                }
            },
            WireMessageView::Lib3hToClientResponse(
                Lib3hToClientResponseView::HandleGetAuthoringEntryListResult(d),
            ) => {
                if d.provider_agent_id != agent || d.space_address != sp {
                    (self, Err(Sim2hError::SpaceMismatch))
                } else {
                    (self.handle_unseen_aspects(uri, sp, agent, d.address_map), Ok(()))
                }
            },
            WireMessageView::Lib3hToClientResponse(
                Lib3hToClientResponseView::HandleGetGossipingEntryListResult(d),
            ) => {
                if d.provider_agent_id != agent || d.space_address != sp {
                    (self, Err(Sim2hError::SpaceMismatch))
                } else {
                    (self.handle_gossiping_list(uri, sp, agent, d.address_map), Ok(()))
                }
            },
            WireMessageView::Lib3hToClientResponse(
                Lib3hToClientResponseView::HandleFetchEntryResult(d),
            ) => {
                if d.provider_agent_id != agent || d.space_address != sp {
                    (self, Err(Sim2hError::SpaceMismatch))
                } else {
                    (self.handle_fetch_entry_result(sp, agent, d), Ok(()))
                }
            },
            WireMessageView::ClientToLib3h(ClientToLib3hView::QueryEntry(q)) => self.handle_query_entry(
                sp,
                q,
            ),
            WireMessageView::Lib3hToClientResponse(
                Lib3hToClientResponseView::HandleQueryEntryResult(d),
            ) => {
                if d.responder_agent_id != agent || d.space_address != sp {
                    (self, Err(Sim2hError::SpaceMismatch))
                } else {
                    self.proxy(
                        sp,
                        d.requester_agent_id,
                        WireMessageView::ClientToLib3hResponse(
                            ClientToLib3hResponseView::QueryEntryResult(d),
                        ),
                    )
                }
            },
            _ => (self, Err(Sim2hError::NotImplemented)),
        }
    }

    /// What the switchboard answers when asked for its status.
    pub open spec fn status(self) -> StatusData {
        StatusData {
            spaces: self.spaces.dom().len() as usize,
            connections: self.open.len() as usize,
            redundant_count: match self.algorithm {
                DhtAlgorithm::FullSync => 0,
                DhtAlgorithm::NaiveSharding { redundant_count } => redundant_count,
            },
            version: WIRE_VERSION,
        }
    }

    /// The state after the message `msg`, signed by `signer`, arrived over a
    /// connection from `uri` that is not in limbo. Unless it is a ping or a
    /// status request, the message is logged.
    pub open spec fn handle_established(self, uri: Key, msg: WireMessageView, signer: Key) -> (
        Sim2hView,
        Result<(), Sim2hError>,
    ) {
        let s = self.logged(Direction::In, signer, uri, msg);
        if msg is Ping {
            (self.send(signer, uri, WireMessageView::Pong), Ok(()))
        } else if msg is Status {
            (self.send(signer, uri, WireMessageView::StatusResponse(self.status())), Ok(()))
        } else if !s.connections.contains_key(uri) {
            (s, Err(Sim2hError::NoConnection))
        } else {
            match s.connections[uri] {
                ConnectionStateView::Joined(sp, agent) => {
                    if agent != signer {
                        (s, Err(Sim2hError::SignerMismatch))
                    } else {
                        s.handle_joined(uri, sp, agent, msg)
                    }
                },
                ConnectionStateView::Limbo(_) => (s, Err(Sim2hError::NotJoined)),
            }
        }
    }

    /// The state after the messages of `queue` from position `i` on, which
    /// waited while the connection from `uri` was in limbo, were handled in
    /// the order of their arrival. An error that one of them runs into is
    /// reported, and the next is taken up.
    pub open spec fn replay_from(self, uri: Key, queue: Seq<WireMessageView>, agent: Key, i: int) -> Sim2hView
        decreases queue.len() - i,
    {
        if i < 0 || i >= queue.len() {
            self
        } else {
            let (s, r) = self.handle_established(uri, queue[i], agent);
            s.report_outcome(r).replay_from(uri, queue, agent, i + 1)
        }
    }

    /// The state after the connection from `uri`, which is in limbo, asked to
    /// join. If the address is that of another agent of the space, the join
    /// is turned down and nothing changes: the connection stays in limbo with
    /// what waits there. Otherwise the connection is joined, its agent is in
    /// the space, the agent's two lists are asked for, and what waited in
    /// limbo is handled.
    pub open spec fn join(self, uri: Key, d: SpaceDataView) -> (Sim2hView, Result<(), Sim2hError>) {
        if self.connections.contains_key(uri) && self.connections[uri] is Limbo {
            let queue = self.connections[uri]->Limbo_0;
            let space = self.space(d.space_address);
            if claimed_by_other(space.agents, d.agent_id, uri) {
                (self, Err(Sim2hError::UriClaimed))
            } else {
                let s2 = Sim2hView {
                    connections: self.connections.insert(
                        uri,
                        ConnectionStateView::Joined(d.space_address, d.agent_id),
                    ),
                    ..self
                }.put_space(
                    d.space_address,
                    SpaceView {
                        agents: put(
                            space.agents,
                            d.agent_id,
                            AgentInfoView { uri, location: d.agent_location },
                        ),
                        ..space
                    },
                );
                let s3 = s2.send(
                    d.agent_id,
                    uri,
                    authoring_list_request(d.space_address, d.agent_id),
                ).send(d.agent_id, uri, gossiping_list_request(d.space_address, d.agent_id));
                (s3.replay_from(uri, queue, d.agent_id, 0), Ok(()))
            }
        } else {
            (self, Err(Sim2hError::NotInLimbo))
        }
    }

    /// The state after the message `msg`, signed by `signer`, arrived over
    /// the connection from `uri`.
    pub open spec fn handle_message(self, uri: Key, msg: WireMessageView, signer: Key) -> (
        Sim2hView,
        Result<(), Sim2hError>,
    ) {
        if self.connections.contains_key(uri) && self.connections[uri] is Limbo && !(msg is Ping)
            && !(msg is Status) {
            let s = self.logged(Direction::In, signer, uri, msg);
            match msg {
                WireMessageView::ClientToLib3h(ClientToLib3hView::JoinSpace(d)) => {
                    if d.agent_id != signer {
                        (s, Err(Sim2hError::SignerMismatch))
                    } else {
                        s.join(uri, d)
                    }
                },
                _ => (
                    Sim2hView {
                        connections: s.connections.insert(
                            uri,
                            ConnectionStateView::Limbo(s.connections[uri]->Limbo_0.push(msg)),
                        ),
                        ..s
                    }.send(signer, uri, WireMessageView::Error(WireErrorView::MessageWhileInLimbo)),
                    Ok(()),
                ),
            }
        } else {
            self.handle_established(uri, msg, signer)
        }
    }

    /// The state after a frame arrived from `uri`.
    pub open spec fn handle_received_data(self, uri: Key, frame: WsFrameView) -> Sim2hView {
        match frame {
            WsFrameView::Text(_) => self.disconnect(uri),
            WsFrameView::Message(signer, msg) => {
                let (s, r) = self.handle_message(uri, msg, signer);
                s.report_outcome(r)
            },
            WsFrameView::Rejected => self.report(Sim2hError::VerifyFailed),
            WsFrameView::Ping => self,
            WsFrameView::Pong => self,
            WsFrameView::Close => self.disconnect(uri),
        }
    }

    /// The state after a connection was opened from `uri`: it is in limbo,
    /// with nothing waiting, and frames can be sent to it.
    pub open spec fn handle_incoming_connect(self, uri: Key) -> Sim2hView {
        Sim2hView {
            connections: self.connections.insert(uri, ConnectionStateView::Limbo(Seq::empty())),
            ..self
        }
    }

    /// The state after one event of the adapter.
    pub open spec fn handle_event(self, e: WssEventView) -> Sim2hView {
        match e {
            WssEventView::IncomingConnection(uri) => {
                let s = self.handle_incoming_connect(uri);
                Sim2hView { open: s.open.insert(uri), ..s }
            },
            WssEventView::ReceivedData(uri, frame) => self.handle_received_data(uri, frame),
            WssEventView::Error(uri, _) => self.disconnect(uri),
        }
    }

    /// The state after the events of `batch` from position `i` on, in order.
    pub open spec fn handle_events_from(self, batch: Seq<WssEventView>, i: int) -> Sim2hView
        decreases batch.len() - i,
    {
        if i < 0 || i >= batch.len() {
            self
        } else {
            self.handle_event(batch[i]).handle_events_from(batch, i + 1)
        }
    }

    /// The state after each of `agents` from position `i` on, as far as it is
    /// in the space `sp`, was asked for the list of what it holds.
    pub open spec fn retry_space_from(self, sp: Key, agents: Seq<Key>, i: int) -> Sim2hView
        decreases agents.len() - i,
    {
        if i < 0 || i >= agents.len() {
            self
        } else {
            let next = match self.lookup_joined(sp, agents[i]) {
                Some(uri) => self.send(agents[i], uri, gossiping_list_request(sp, agents[i])),
                None => self,
            };
            next.retry_space_from(sp, agents, i + 1)
        }
    }

    /// The state after every agent that the ledger of one of the spaces
    /// `order`, from position `i` on, has a line for was asked for the list
    /// of what it holds.
    pub open spec fn retry_from(self, order: Seq<Key>, i: int) -> Sim2hView
        decreases order.len() - i,
    {
        if i < 0 || i >= order.len() {
            self
        } else {
            self.retry_space_from(
                order[i],
                distinct(ledger_agents(self.space(order[i]).missing)),
                0,
            ).retry_from(order, i + 1)
        }
    }

    /// The events that the next tick handles: the oldest of the inbox, up to
    /// `EVENTS_PER_TICK` of them.
    pub open spec fn batch(self) -> Seq<WssEventView> {
        self.inbox.take(batch_size(self.inbox.len()))
    }

    /// The state in which the events that the next tick handles have left
    /// the inbox.
    pub open spec fn drained(self) -> Sim2hView {
        Sim2hView { inbox: self.inbox.skip(batch_size(self.inbox.len())), ..self }
    }

    /// The state at the start of a tick: the counter has moved on, and the
    /// events that the tick handles have left the inbox.
    pub open spec fn tick_start(self) -> Sim2hView {
        Sim2hView {
            ticks: if self.ticks + 1 >= TICKS_PER_ROUND {
                0
            } else {
                (self.ticks + 1) as u64
            },
            ..self.drained()
        }
    }

    /// The state after the events of one tick: the counter has moved on, and
    /// the oldest events of the inbox, up to `EVENTS_PER_TICK` of them, have
    /// been handled in order.
    pub open spec fn after_events(self) -> Sim2hView {
        self.tick_start().handle_events_from(self.batch(), 0)
    }

    /// Whether a retry round is due at the time `now`.
    pub open spec fn retry_due(self, now: u64) -> bool {
        now >= self.resync_at
    }

    /// The state after one tick at the time `now`, in which the spaces are
    /// visited in the order `order` if a retry round is due.
    pub open spec fn process(self, now: u64, order: Seq<Key>) -> Sim2hView {
        let s = self.after_events();
        if s.retry_due(now) {
            Sim2hView { resync_at: next_resync(now), ..s }.retry_from(order, 0)
        } else {
            s
        }
    }
}

/// The number of events that one tick takes from an inbox of `len` events.
pub open spec fn batch_size(len: nat) -> int {
    if len <= EVENTS_PER_TICK {
        len as int
    } else {
        EVENTS_PER_TICK as int
    }
}

/// Whether the shuffle of `pool` with `seed` holds the items of `pool`, each
/// as often as `pool` does.
pub open spec fn shuffle_keeps(pool: Seq<Key>, seed: u64) -> bool {
    shuffled(pool, seed).to_multiset() == pool.to_multiset()
}

/// The order in which the agents of `pool` are tried: the shuffle of the pool
/// with `seed`. The shuffle holds the items of the pool, each as often as the
/// pool does; were it ever otherwise, the pool would be tried as it stands.
pub open spec fn drawn(pool: Seq<Key>, seed: u64) -> Seq<Key> {
    if shuffle_keeps(pool, seed) {
        shuffled(pool, seed)
    } else {
        pool
    }
}

/// The agents that are tried are the agents of the pool, each as often as
/// the pool has it.
pub proof fn lemma_drawn(pool: Seq<Key>, seed: u64)
    ensures
        drawn(pool, seed).to_multiset() == pool.to_multiset(),
        drawn(pool, seed).len() == pool.len(),
        forall|k: Key| #[trigger] drawn(pool, seed).contains(k) <==> pool.contains(k),
{
    let d = drawn(pool, seed);
    vstd::seq_lib::to_multiset_len(d);
    vstd::seq_lib::to_multiset_len(pool);
    d.to_multiset_ensures();
    pool.to_multiset_ensures();
    assert forall|k: Key| #[trigger] d.contains(k) <==> pool.contains(k) by {
        assert(d.contains(k) <==> d.to_multiset().count(k) > 0);
        assert(pool.contains(k) <==> pool.to_multiset().count(k) > 0);
    }
}

/// The seed of the shuffle after the one that `seed` was used for.
pub open spec fn next_seed(seed: u64) -> u64 {
    if seed == u64::MAX {
        0
    } else {
        (seed + 1) as u64
    }
}

/// The time from which the retry round after the one at `now` is due.
pub open spec fn next_resync(now: u64) -> u64 {
    if now > u64::MAX - RETRY_FETCH_MISSING_ASPECTS_INTERVAL_MS {
        u64::MAX
    } else {
        (now + RETRY_FETCH_MISSING_ASPECTS_INTERVAL_MS) as u64
    }
}

} // verus!
