//! The switchboard: the state of the connections and the spaces, and the
//! handling of every event that the adapter delivers.

use vstd::prelude::*;
use crate::agent_info::AgentInfo;
use crate::aspect_list::{AspectList, diff, from_pairs, pairs_view};
use crate::assoc::{has_key, Key};
use crate::connection_state::{ConnectionState, ConnectionStateView};
use crate::dht::DhtAlgorithm;
use crate::error::Sim2hError;
use crate::ident::{AgentId, AspectHash, EntryHash, ids_view, Lib3hUri, Location, SpaceHash};
use crate::invariants::{
    bindings_agree, keeps, lemma_connect_keeps, lemma_disconnect_forgets, lemma_disconnect_keeps,
    lemma_established_keeps, lemma_join_keeps, lemma_keeps_chain, lemma_keeps_refl,
    lemma_limbo_keeps, lemma_quiet_keeps, rebinding_free_from, rebinds, rejoins,
    joined_are_members, lemma_disconnect_members, lemma_joined_keeps, rejoin_free_from,
    rejoins_by,
};
use crate::message_log::{Direction, log_view, MessageLogEntry};
use crate::model::{
    all_except, all_except_from, authoring_list_request, complete_holders_from,
    enumerates, EVENTS_PER_TICK, fetch_request,
    first_source_from, gossiping_list_request, member_ids, next_seed, note_entry_from,
    note_missing_from, RETRY_FETCH_MISSING_ASPECTS_INTERVAL_MS, shuffle_keeps,
    Sim2hView, store_request, TICKS_PER_ROUND, with_entry_aspects_from,
};
use crate::naive_sharding::{Member, members_view};
use crate::protocol::{
    aspect_data_view, ClientToLib3h, ClientToLib3hResponse, EntryData, FetchEntryData,
    FetchEntryResultData, GetListData, Lib3hToClient, Lib3hToClientResponse, QueryEntryData,
    SpaceData, StoreEntryAspectData,
};
use crate::quiet::{lemma_only_sent_quiet, lemma_report_quiet};
use crate::random::shuffle_with_seed;
use crate::space::{ledger_agents, Space, SpaceView};
use crate::store::{
    address_members, addresses_contains, addresses_insert, addresses_len, addresses_new,
    addresses_remove, connection_entries, connections_get, connections_insert, connections_new,
    connections_remove, space_entries, spaces_get, spaces_insert, spaces_keys, spaces_len,
    spaces_new, spaces_remove,
};
use crate::str_set::distinct;
use crate::table::Table;
use crate::websocket::{
    commands_view, events_view, WsFrame, WssCommand, WssCommandView, WssEvent, WssEventView,
};
use crate::wire_message::{
    messages_view, StatusData, WIRE_VERSION, WireError, WireMessage, WireMessageView,
};

verus! {

/// The connections and the spaces of a switchboard.
#[derive(Debug, Clone)]
pub struct Sim2hState {
    /// The state of each connection, by its address.
    pub connections: im::HashMap<Lib3hUri, ConnectionState>,
    /// The spaces, by their hashes.
    pub spaces: im::HashMap<SpaceHash, Space>,
}

/// The model of the connections: the model of each state, by address.
pub open spec fn connections_view(m: im::HashMap<Lib3hUri, ConnectionState>) -> Map<
    Key,
    ConnectionStateView,
> {
    Map::new(
        |k: Key| connection_entries(m).contains_key(k),
        |k: Key| connection_entries(m)[k]@,
    )
}

/// The model of the spaces: the model of each space, by hash.
pub open spec fn spaces_view(m: im::HashMap<SpaceHash, Space>) -> Map<Key, SpaceView> {
    Map::new(|k: Key| space_entries(m).contains_key(k), |k: Key| space_entries(m)[k]@)
}

impl Sim2hState {
    /// A state without connections and without spaces.
    pub fn new() -> (s: Self)
        ensures
            connections_view(s.connections) == Map::<Key, ConnectionStateView>::empty(),
            spaces_view(s.spaces) == Map::<Key, SpaceView>::empty(),
    {
        let s = Sim2hState { connections: connections_new(), spaces: spaces_new() };
        assert(connections_view(s.connections) =~= Map::<Key, ConnectionStateView>::empty());
        assert(spaces_view(s.spaces) =~= Map::<Key, SpaceView>::empty());
        s
    }
}

/// The switchboard.
pub struct Sim2h {
    /// The address that the adapter listens on, once it is bound.
    pub bound_uri: Option<Lib3hUri>,
    state: Sim2hState,
    open_connections: im::HashSet<Lib3hUri>,
    inbox: Vec<WssEvent>,
    outbox: Vec<WssCommand>,
    reports: Vec<Sim2hError>,
    message_log: Vec<MessageLogEntry>,
    num_ticks: u64,
    missing_aspects_resync: u64,
    dht_algorithm: DhtAlgorithm,
    rng_seed: u64,
}

impl View for Sim2h {
    type V = Sim2hView;

    closed spec fn view(&self) -> Sim2hView {
        Sim2hView {
            bound_uri: match self.bound_uri {
                Some(uri) => Some(uri@),
                None => None,
            },
            connections: connections_view(self.state.connections),
            spaces: spaces_view(self.state.spaces),
            open: address_members(self.open_connections),
            inbox: events_view(self.inbox@),
            outbox: commands_view(self.outbox@),
            reports: self.reports@,
            message_log: log_view(self.message_log@),
            algorithm: self.dht_algorithm,
            seed: self.rng_seed,
            resync_at: self.missing_aspects_resync,
            ticks: self.num_ticks,
        }
    }
}

impl Sim2h {
    /// What holds of the switchboard between any two of its steps.
    pub open spec fn wf(&self) -> bool {
        self@.wf()
    }

    /// A switchboard without connections and without spaces, under full
    /// sync. Its shuffles start from `seed`, and its first retry round is due
    /// from the time `now` on.
    pub fn new(seed: u64, now: u64) -> (s: Self)
        ensures
            s.wf(),
            s@ == (Sim2hView {
                bound_uri: None,
                connections: Map::empty(),
                spaces: Map::empty(),
                open: Set::empty(),
                inbox: Seq::empty(),
                outbox: Seq::empty(),
                reports: Seq::empty(),
                message_log: Seq::empty(),
                algorithm: DhtAlgorithm::FullSync,
                seed,
                resync_at: now,
                ticks: 0,
            }),
    {
        let s = Sim2h {
            bound_uri: None,
            state: Sim2hState::new(),
            open_connections: addresses_new(),
            inbox: Vec::new(),
            outbox: Vec::new(),
            reports: Vec::new(),
            message_log: Vec::new(),
            num_ticks: 0,
            missing_aspects_resync: now,
            dht_algorithm: DhtAlgorithm::FullSync,
            rng_seed: seed,
        };
        assert(s@.inbox =~= Seq::empty());
        assert(s@.outbox =~= Seq::empty());
        assert(s@.message_log =~= Seq::empty());
        s
    }

    /// Changes the replication policy.
    pub fn set_dht_algorithm(&mut self, new_algo: DhtAlgorithm)
        requires
            old(self).wf(),
        ensures
            final(self).wf(),
            final(self)@ == (Sim2hView { algorithm: new_algo, ..old(self)@ }),
    {
        self.dht_algorithm = new_algo;
    }

    /// Adds a line to the message log.
    fn log(&mut self, direction: Direction, agent: AgentId, uri: Lib3hUri, msg: &WireMessage)
        requires
            old(self).wf(),
        ensures
            final(self).wf(),
            final(self)@ == old(self)@.logged(direction, agent@, uri@, msg@),
    {
        let ghost before = log_view(self.message_log@);
        let entry = MessageLogEntry { direction, agent, uri, message: msg.duplicate() };
        let ghost ev = entry@;
        self.message_log.push(entry);
        assert(log_view(self.message_log@) =~= before.push(ev));
    }

    /// Sends `msg` to `agent` at `uri`. Unless it is a ping or a pong, the
    /// message is logged. A message for an address that is not open is
    /// dropped, which is reported.
    fn send(&mut self, agent: AgentId, uri: Lib3hUri, msg: &WireMessage)
        requires
            old(self).wf(),
        ensures
            final(self).wf(),
            final(self)@ == old(self)@.send(agent@, uri@, msg@),
    {
        match msg {
            WireMessage::Ping => {},
            WireMessage::Pong => {},
            _ => self.log(Direction::Out, agent, uri.clone(), msg),
        }
        if !addresses_contains(&self.open_connections, &uri) {
            self.report(Sim2hError::NoRoute);
            return ;
        }
        let ghost before = commands_view(self.outbox@);
        let ghost cmd = WssCommandView::SendMessage(uri@, msg@);
        self.outbox.push(WssCommand::SendMessage(uri, msg.duplicate()));
        assert(commands_view(self.outbox@) =~= before.push(cmd));
    }

    /// Reports the error `e`.
    fn report(&mut self, e: Sim2hError)
        requires
            old(self).wf(),
        ensures
            final(self).wf(),
            final(self)@ == old(self)@.report(e),
    {
        self.reports.push(e);
    }

    /// Reports the outcome of a step if it is an error.
    fn report_outcome(&mut self, r: Result<(), Sim2hError>)
        requires
            old(self).wf(),
        ensures
            final(self).wf(),
            final(self)@ == old(self)@.report_outcome(r),
    {
        match r {
            Ok(_) => {},
            Err(e) => self.report(e),
        }
    }

    /// Takes the space `sp` out of the state, or makes a new one if there is
    /// none.
    fn take_space(&mut self, sp: &SpaceHash) -> (space: Space)
        requires
            old(self).wf(),
        ensures
            final(self).wf(),
            space.wf(),
            space@ == old(self)@.space(sp@),
            final(self)@ == (Sim2hView { spaces: old(self)@.spaces.remove(sp@), ..old(self)@ }),
    {
        let taken = spaces_remove(&mut self.state.spaces, sp);
        assert(self@.spaces =~= old(self)@.spaces.remove(sp@));
        match taken {
            Some(space) => {
                assert(old(self)@.spaces.contains_key(sp@));
                assert(space@ == old(self)@.spaces[sp@]);
                space
            },
            None => Space::new(),
        }
    }

    /// Puts `space` into the state as the space `sp`.
    fn put_space(&mut self, sp: SpaceHash, space: Space)
        requires
            old(self).wf(),
            space.wf(),
        ensures
            final(self).wf(),
            final(self)@ == old(self)@.put_space(sp@, space@),
    {
        let _ = spaces_insert(&mut self.state.spaces, sp, space);
        assert(self@.spaces =~= old(self)@.spaces.insert(sp@, space@));
    }

    /// Sets the state of the connection from `uri`.
    fn set_connection(&mut self, uri: Lib3hUri, c: ConnectionState)
        requires
            old(self).wf(),
        ensures
            final(self).wf(),
            final(self)@ == (Sim2hView {
                connections: old(self)@.connections.insert(uri@, c@),
                ..old(self)@
            }),
    {
        let _ = connections_insert(&mut self.state.connections, uri, c);
        assert(self@.connections =~= old(self)@.connections.insert(uri@, c@));
    }

    /// The address of `agent` in the space `sp`, if the space exists and the
    /// agent has joined it.
    fn lookup_joined(&self, sp: &SpaceHash, agent: &AgentId) -> (r: Option<Lib3hUri>)
        requires
            self.wf(),
        ensures
            r is Some == (self@.lookup_joined(sp@, agent@) is Some),
            r matches Some(uri) ==> self@.lookup_joined(sp@, agent@) == Some(uri@),
    {
        match spaces_get(&self.state.spaces, sp) {
            Some(space) => {
                assert(self@.spaces.contains_key(sp@));
                assert(space@ == self@.spaces[sp@]);
                space.agent_id_to_uri(agent)
            },
            None => None,
        }
    }

    /// Gives up the connection from `uri`: the adapter is told to close it,
    /// and the agent that had joined over it, if any, leaves its space, which
    /// goes with its last agent.
    fn disconnect(&mut self, uri: &Lib3hUri)
        requires
            old(self).wf(),
        ensures
            final(self).wf(),
            final(self)@ == old(self)@.disconnect(uri@),
    {
        addresses_remove(&mut self.open_connections, uri);
        let ghost before = commands_view(self.outbox@);
        self.outbox.push(WssCommand::CloseConnection(uri.clone()));
        assert(commands_view(self.outbox@) =~= before.push(WssCommandView::CloseConnection(uri@)));
        let was = connections_remove(&mut self.state.connections, uri);
        assert(self@.connections =~= old(self)@.connections.remove(uri@));
        match was {
            Some(ConnectionState::Joined(sp, agent)) => {
                assert(old(self)@.connections[uri@] == ConnectionStateView::Joined(sp@, agent@));
                match spaces_remove(&mut self.state.spaces, &sp) {
                    Some(space) => {
                        let mut space = space;
                        assert(space@ == old(self)@.spaces[sp@]);
                        assert(self@.spaces =~= old(self)@.spaces.remove(sp@));
                        let left = space.remove_agent(&agent);
                        if left > 0 {
                            let ghost sv = space@;
                            let _ = spaces_insert(&mut self.state.spaces, sp, space);
                            assert(self@.spaces =~= old(self)@.spaces.insert(sp@, sv));
                        }
                    },
                    None => {
                        assert(self@.spaces =~= old(self)@.spaces);
                    },
                }
            },
            Some(ConnectionState::Limbo(_)) => {},
            None => {},
        }
    }

    /// Asks `agent` at `uri` for the list of what it has authored.
    fn request_authoring_list(&mut self, uri: Lib3hUri, sp: SpaceHash, agent: AgentId)
        requires
            old(self).wf(),
        ensures
            final(self).wf(),
            final(self)@ == old(self)@.send(agent@, uri@, authoring_list_request(sp@, agent@)),
    {
        let msg = WireMessage::Lib3hToClient(
            Lib3hToClient::HandleGetAuthoringEntryList(
                GetListData {
                    space_address: sp,
                    provider_agent_id: agent.clone(),
                    request_id: String::new(),
                },
            ),
        );
        self.send(agent, uri, &msg);
    }

    /// Asks `agent` at `uri` for the list of what it holds.
    fn request_gossiping_list(&mut self, uri: Lib3hUri, sp: SpaceHash, agent: AgentId)
        requires
            old(self).wf(),
        ensures
            final(self).wf(),
            final(self)@ == old(self)@.send(agent@, uri@, gossiping_list_request(sp@, agent@)),
    {
        let msg = WireMessage::Lib3hToClient(
            Lib3hToClient::HandleGetGossipingEntryList(
                GetListData {
                    space_address: sp,
                    provider_agent_id: agent.clone(),
                    request_id: String::new(),
                },
            ),
        );
        self.send(agent, uri, &msg);
    }

    /// Sends `msg` to each of `agents`.
    fn broadcast(&mut self, msg: &WireMessage, agents: &Vec<(AgentId, AgentInfo)>)
        requires
            old(self).wf(),
        ensures
            final(self).wf(),
            final(self)@ == old(self)@.broadcast_from(msg@, members_view(agents@), 0),
    {
        let ghost goal = self@.broadcast_from(msg@, members_view(agents@), 0);
        let mut i: usize = 0;
        while i < agents.len()
            invariant
                i <= agents@.len(),
                self.wf(),
                goal == self@.broadcast_from(msg@, members_view(agents@), i as int),
            decreases agents@.len() - i,
        {
            self.send(agents[i].0.clone(), agents[i].1.uri.clone(), msg);
            i += 1;
        }
    }
}

/// The members of `agents` that are not `except`, in order.
pub fn all_agents_except_one(agents: &Table<AgentInfo>, except: Option<&AgentId>) -> (res: Vec<
    (AgentId, AgentInfo),
>)
    ensures
        members_view(res@) == all_except(
            agents@,
            match except {
                Some(a) => Some(a@),
                None => None,
            },
        ),
{
    let ghost ex: Option<Key> = match except {
        Some(a) => Some(a@),
        None => None,
    };
    let mut res: Vec<(AgentId, AgentInfo)> = Vec::new();
    let mut i: usize = 0;
    assert(members_view(res@) =~= Seq::<Member>::empty());
    while i < agents.len()
        invariant
            i <= agents@.len(),
            ex == match except {
                Some(a) => Some(a@),
                None => None::<Key>,
            },
            all_except(agents@, ex) == all_except_from(agents@, ex, i as int, members_view(res@)),
        decreases agents@.len() - i,
    {
        let skip = match except {
            Some(a) => *agents.key_at(i) == *a,
            None => false,
        };
        if !skip {
            let ghost before = members_view(res@);
            res.push((agents.key_at(i).clone(), agents.value_at(i).duplicate()));
            assert(members_view(res@) =~= before.push(agents@[i as int]));
        }
        i += 1;
    }
    res
}

/// The identifiers of `members`, in order.
pub fn ids_of(members: &Vec<(AgentId, AgentInfo)>) -> (ids: Vec<AgentId>)
    ensures
        ids_view(ids@) == member_ids(members_view(members@)),
{
    let mut ids: Vec<AgentId> = Vec::new();
    let mut i: usize = 0;
    while i < members.len()
        invariant
            i <= members@.len(),
            ids@.len() == i,
            forall|j: int| 0 <= j < i ==> (#[trigger] ids@[j])@ == members@[j].0@,
        decreases members@.len() - i,
    {
        ids.push(members[i].0.clone());
        i += 1;
    }
    assert(ids_view(ids@) =~= member_ids(members_view(members@)));
    ids
}

/// The identifiers of the agents of `agents`, in order.
pub fn agent_ids(agents: &Table<AgentInfo>) -> (ids: Vec<AgentId>)
    ensures
        ids_view(ids@) == member_ids(agents@),
{
    let mut ids: Vec<AgentId> = Vec::new();
    let mut i: usize = 0;
    while i < agents.len()
        invariant
            i <= agents@.len(),
            ids@.len() == i,
            forall|j: int| 0 <= j < i ==> (#[trigger] ids@[j])@ == agents@[j].0,
        decreases agents@.len() - i,
    {
        ids.push(agents.key_at(i).clone());
        i += 1;
    }
    assert(ids_view(ids@) =~= member_ids(agents@));
    ids
}

impl Sim2h {
    /// The agents that are to store an entry at `loc` which `provider`
    /// brought into the space `sp`.
    fn replica_set(&mut self, sp: &SpaceHash, loc: Location, provider: &AgentId) -> (res: Vec<
        (AgentId, AgentInfo),
    >)
        requires
            old(self).wf(),
        ensures
            final(self).wf(),
            final(self)@ == old(self)@.ensure_space(sp@),
            members_view(res@) == old(self)@.replica_set(sp@, loc, provider@),
    {
        let space = self.take_space(sp);
        let res = match self.dht_algorithm {
            DhtAlgorithm::FullSync => all_agents_except_one(space.all_agents(), Some(provider)),
            DhtAlgorithm::NaiveSharding { redundant_count } => space.agents_supposed_to_hold_entry(
                loc,
                redundant_count,
            ),
        };
        self.put_space(sp.clone(), space);
        assert(self@.spaces =~= old(self)@.ensure_space(sp@).spaces);
        res
    }

    /// Takes in an entry that `provider` brought into the space `sp`: the
    /// space learns the place of the entry and each of its aspects, and each
    /// aspect is handed to the agents that are to store it.
    fn handle_new_entry_data(&mut self, entry: EntryData, sp: SpaceHash, provider: AgentId)
        requires
            old(self).wf(),
        ensures
            final(self).wf(),
            final(self)@ == old(self)@.handle_new_entry_data(entry@, sp@, provider@),
    {
        let targets = self.replica_set(&sp, entry.entry_location, &provider);
        let mut space = self.take_space(&sp);
        space.set_entry_location(entry.entry_address.clone(), entry.entry_location);
        let ghost aspects = aspect_data_view(entry.aspect_list@);
        let ghost goal_space = with_entry_aspects_from(space@, entry.entry_address@, aspects, 0);
        let mut i: usize = 0;
        while i < entry.aspect_list.len()
            invariant
                i <= entry.aspect_list@.len(),
                aspects == aspect_data_view(entry.aspect_list@),
                space.wf(),
                goal_space == with_entry_aspects_from(
                    space@,
                    entry.entry_address@,
                    aspects,
                    i as int,
                ),
            decreases entry.aspect_list@.len() - i,
        {
            space.add_aspect(
                entry.entry_address.clone(),
                entry.aspect_list[i].aspect_address.clone(),
            );
            i += 1;
        }
        self.put_space(sp.clone(), space);
        assert(self@.spaces =~= old(self)@.spaces.insert(sp@, goal_space));
        let ghost goal = self@.store_from(
            sp@,
            provider@,
            entry.entry_address@,
            aspects,
            members_view(targets@),
            0,
        );
        let mut j: usize = 0;
        while j < entry.aspect_list.len()
            invariant
                j <= entry.aspect_list@.len(),
                aspects == aspect_data_view(entry.aspect_list@),
                self.wf(),
                goal == self@.store_from(
                    sp@,
                    provider@,
                    entry.entry_address@,
                    aspects,
                    members_view(targets@),
                    j as int,
                ),
            decreases entry.aspect_list@.len() - j,
        {
            let msg = WireMessage::Lib3hToClient(
                Lib3hToClient::HandleStoreEntryAspect(
                    StoreEntryAspectData {
                        request_id: String::new(),
                        space_address: sp.clone(),
                        provider_agent_id: provider.clone(),
                        entry_address: entry.entry_address.clone(),
                        entry_aspect: entry.aspect_list[j].duplicate(),
                    },
                ),
            );
            assert(msg@ == store_request(sp@, provider@, entry.entry_address@, aspects[j as int]));
            self.broadcast(&msg, &targets);
            j += 1;
        }
    }

    /// Asks `agent` at `uri` for every aspect of the list that it reported
    /// which the space `sp` has not been told of.
    fn handle_unseen_aspects(
        &mut self,
        uri: &Lib3hUri,
        sp: &SpaceHash,
        agent: &AgentId,
        address_map: &Vec<(EntryHash, Vec<AspectHash>)>,
    )
        requires
            old(self).wf(),
        ensures
            final(self).wf(),
            final(self)@ == old(self)@.handle_unseen_aspects(
                uri@,
                sp@,
                agent@,
                pairs_view(address_map@),
            ),
    {
        let space = self.take_space(sp);
        let unseen = AspectList::from_pairs(address_map).diff(space.all_aspects());
        self.put_space(sp.clone(), space);
        assert(self@.spaces =~= old(self)@.ensure_space(sp@).spaces);
        let ghost goal = self@.request_unseen_from(uri@, sp@, agent@, unseen@, 0);
        let mut i: usize = 0;
        while i < unseen.len()
            invariant
                i <= unseen@.len(),
                unseen.wf(),
                self.wf(),
                goal == self@.request_unseen_from(uri@, sp@, agent@, unseen@, i as int),
            decreases unseen@.len() - i,
        {
            let aspects = unseen.aspects_at(i).to_vec();
            assert(ids_view(aspects@) =~= unseen@[i as int].1);
            let msg = WireMessage::Lib3hToClient(
                Lib3hToClient::HandleFetchEntry(
                    FetchEntryData {
                        space_address: sp.clone(),
                        entry_address: unseen.entry_at(i).clone(),
                        request_id: String::new(),
                        provider_agent_id: agent.clone(),
                        aspect_address_list: Some(aspects),
                    },
                ),
            );
            assert(msg@ == fetch_request(
                sp@,
                agent@,
                unseen@[i as int].0,
                unseen@[i as int].1,
                Seq::empty(),
            ));
            self.send(agent.clone(), uri.clone(), &msg);
            i += 1;
        }
    }
}

/// The model of an optional identifier.
pub open spec fn opt_id_view(o: Option<String>) -> Option<Key> {
    match o {
        Some(a) => Some(a@),
        None => None,
    }
}

impl Sim2h {
    /// The space `sp`, if there is one.
    fn space_ref(&self, sp: &SpaceHash) -> (r: Option<&Space>)
        requires
            self.wf(),
        ensures
            r is Some == self@.spaces.contains_key(sp@),
            r matches Some(space) ==> space@ == self@.spaces[sp@] && space.wf(),
    {
        let r = spaces_get(&self.state.spaces, sp);
        match r {
            Some(space) => {
                assert(self@.spaces.contains_key(sp@));
                assert(space@ == self@.spaces[sp@]);
            },
            None => {},
        }
        r
    }

    /// The seed for the next shuffle; the one after it will get another.
    fn draw_seed(&mut self) -> (seed: u64)
        requires
            old(self).wf(),
        ensures
            final(self).wf(),
            seed == old(self)@.seed,
            final(self)@ == (Sim2hView { seed: next_seed(old(self)@.seed), ..old(self)@ }),
    {
        let seed = self.rng_seed;
        self.rng_seed = if seed == u64::MAX {
            0
        } else {
            seed + 1
        };
        seed
    }

    /// The first agent of `agent_pool` that can help `for_agent_id` with the
    /// aspects `aspects` of `entry_hash`: one that is not `for_agent_id`
    /// itself and that the ledger of the space does not show to lack every
    /// one of these aspects. The caller shuffles the pool, so that the
    /// requests spread over the agents.
    pub fn get_agent_not_missing_aspects(
        &self,
        entry_hash: &EntryHash,
        aspects: &Vec<AspectHash>,
        for_agent_id: &AgentId,
        agent_pool: &Vec<AgentId>,
        space_address: &SpaceHash,
    ) -> (r: Option<AgentId>)
        requires
            self.wf(),
        ensures
            opt_id_view(r) == if self@.spaces.contains_key(space_address@) {
                first_source_from(
                    self@.spaces[space_address@].missing,
                    entry_hash@,
                    ids_view(aspects@),
                    for_agent_id@,
                    ids_view(agent_pool@),
                    0,
                )
            } else {
                None
            },
    {
        let space = match self.space_ref(space_address) {
            Some(space) => space,
            None => {
                return None;
            },
        };
        let ghost ledger = space@.missing;
        let ghost pool = ids_view(agent_pool@);
        let ghost goal = first_source_from(
            ledger,
            entry_hash@,
            ids_view(aspects@),
            for_agent_id@,
            pool,
            0,
        );
        let mut i: usize = 0;
        while i < agent_pool.len()
            invariant
                i <= agent_pool@.len(),
                pool == ids_view(agent_pool@),
                ledger == space@.missing,
                self@.spaces.contains_key(space_address@),
                ledger == self@.spaces[space_address@].missing,
                goal == first_source_from(
                    ledger,
                    entry_hash@,
                    ids_view(aspects@),
                    for_agent_id@,
                    pool,
                    0,
                ),
                goal == first_source_from(
                    ledger,
                    entry_hash@,
                    ids_view(aspects@),
                    for_agent_id@,
                    pool,
                    i as int,
                ),
            decreases agent_pool@.len() - i,
        {
            assert(pool[i as int] == agent_pool@[i as int]@);
            if !(agent_pool[i] == *for_agent_id) && !space.agent_is_missing_all_aspects(
                &agent_pool[i],
                entry_hash,
                aspects,
            ) {
                return Some(agent_pool[i].clone());
            }
            i += 1;
        }
        None
    }

    /// Asks agents of `agent_pool`, in shuffled order, for the aspects
    /// `aspects_to_fetch` that `for_agent_id` lacks: for each entry the first
    /// agent that can help. The request names `for_agent_id` as its id, by
    /// which the answer finds its way. An entry that nobody can help with is
    /// left for the next retry round.
    fn fetch_aspects_from_arbitrary_agent(
        &mut self,
        aspects_to_fetch: AspectList,
        for_agent_id: AgentId,
        agent_pool: Vec<AgentId>,
        space_address: SpaceHash,
    )
        requires
            old(self).wf(),
            aspects_to_fetch.wf(),
        ensures
            final(self).wf(),
            final(self)@ == old(self)@.fetch_aspects_from_arbitrary_agent(
                aspects_to_fetch@,
                for_agent_id@,
                ids_view(agent_pool@),
                space_address@,
            ),
            shuffle_keeps(ids_view(agent_pool@), old(self)@.seed),
    {
        let mut pool = agent_pool;
        let seed = self.draw_seed();
        shuffle_with_seed(&mut pool, seed);
        let ghost goal = self@.fetch_from(
            aspects_to_fetch@,
            for_agent_id@,
            ids_view(pool@),
            space_address@,
            0,
        );
        let mut i: usize = 0;
        while i < aspects_to_fetch.len()
            invariant
                i <= aspects_to_fetch@.len(),
                shuffle_keeps(ids_view(agent_pool@), old(self)@.seed),
                goal == old(self)@.fetch_aspects_from_arbitrary_agent(
                    aspects_to_fetch@,
                    for_agent_id@,
                    ids_view(agent_pool@),
                    space_address@,
                ),
                aspects_to_fetch.wf(),
                self.wf(),
                goal == self@.fetch_from(
                    aspects_to_fetch@,
                    for_agent_id@,
                    ids_view(pool@),
                    space_address@,
                    i as int,
                ),
            decreases aspects_to_fetch@.len() - i,
        {
            let entry = aspects_to_fetch.entry_at(i);
            let aspects = aspects_to_fetch.aspects_at(i).to_vec();
            assert(ids_view(aspects@) =~= aspects_to_fetch@[i as int].1);
            match self.get_agent_not_missing_aspects(
                entry,
                &aspects,
                &for_agent_id,
                &pool,
                &space_address,
            ) {
                Some(source) => {
                    match self.lookup_joined(&space_address, &source) {
                        Some(uri) => {
                            let msg = WireMessage::Lib3hToClient(
                                Lib3hToClient::HandleFetchEntry(
                                    FetchEntryData {
                                        space_address: space_address.clone(),
                                        entry_address: entry.clone(),
                                        request_id: for_agent_id.clone(),
                                        provider_agent_id: source.clone(),
                                        aspect_address_list: Some(aspects),
                                    },
                                ),
                            );
                            assert(msg@ == fetch_request(
                                space_address@,
                                source@,
                                aspects_to_fetch@[i as int].0,
                                aspects_to_fetch@[i as int].1,
                                for_agent_id@,
                            ));
                            self.send(source, uri, &msg);
                        },
                        None => {
                            return ;
                        },
                    }
                },
                None => {},
            }
            i += 1;
        }
    }

    /// Asks, for each entry of `missing`, one of the agents nearest to the
    /// entry for the aspects that `agent` lacks of it.
    fn fetch_by_shard(&mut self, missing: &AspectList, agent: &AgentId, sp: &SpaceHash, r: u64)
        requires
            old(self).wf(),
            missing.wf(),
        ensures
            final(self).wf(),
            final(self)@ == old(self)@.fetch_by_shard_from(missing@, agent@, sp@, r, 0),
    {
        let ghost goal = self@.fetch_by_shard_from(missing@, agent@, sp@, r, 0);
        let mut i: usize = 0;
        while i < missing.len()
            invariant
                i <= missing@.len(),
                missing.wf(),
                self.wf(),
                goal == self@.fetch_by_shard_from(missing@, agent@, sp@, r, i as int),
            decreases missing@.len() - i,
        {
            let entry = missing.entry_at(i);
            let pool = match self.space_ref(sp) {
                Some(space) => match space.entry_location(entry) {
                    Some(loc) => Some(ids_of(&space.agents_supposed_to_hold_entry(loc, r))),
                    None => None,
                },
                None => None,
            };
            match pool {
                Some(pool) => {
                    self.fetch_aspects_from_arbitrary_agent(
                        missing.restricted_to(entry),
                        agent.clone(),
                        pool,
                        sp.clone(),
                    );
                },
                None => {},
            }
            i += 1;
        }
    }

    /// Takes in the list of what `agent`, at `uri`, holds: asks the agent for
    /// what the space has not been told of, notes in the ledger what the
    /// agent is expected to hold and does not, and asks other agents for it.
    fn handle_gossiping_list(
        &mut self,
        uri: &Lib3hUri,
        sp: &SpaceHash,
        agent: &AgentId,
        address_map: &Vec<(EntryHash, Vec<AspectHash>)>,
    )
        requires
            old(self).wf(),
        ensures
            final(self).wf(),
            final(self)@ == old(self)@.handle_gossiping_list(
                uri@,
                sp@,
                agent@,
                pairs_view(address_map@),
            ),
    {
        self.handle_unseen_aspects(uri, sp, agent, address_map);
        let ghost s1 = self@;
        proof {
            crate::frame::lemma_request_unseen_frame(
                old(self)@.ensure_space(sp@),
                uri@,
                sp@,
                agent@,
                diff(from_pairs(pairs_view(address_map@)), old(self)@.space(sp@).all_aspects),
                0,
            );
            assert(s1.spaces.contains_key(sp@));
        }
        let algorithm = self.dht_algorithm;
        let mut space = self.take_space(sp);
        let ghost sv = space@;
        let reported = AspectList::from_pairs(address_map);
        let missing = match algorithm {
            DhtAlgorithm::FullSync => space.all_aspects().diff(&reported),
            DhtAlgorithm::NaiveSharding { redundant_count } => space.aspects_in_shard_for_agent(
                agent,
                redundant_count,
            ).diff(&reported),
        };
        assert(missing@ == diff(s1.expected_of(sp@, agent@), from_pairs(pairs_view(address_map@))));
        if missing.len() == 0 {
            self.put_space(sp.clone(), space);
            assert(self@.spaces =~= s1.spaces);
            return ;
        }
        let ghost goal_ledger = note_missing_from(sv.missing, agent@, missing@, 0);
        let mut i: usize = 0;
        while i < missing.len()
            invariant
                i <= missing@.len(),
                missing.wf(),
                space.wf(),
                space@ == (SpaceView { missing: space@.missing, ..sv }),
                goal_ledger == note_missing_from(space@.missing, agent@, missing@, i as int),
            decreases missing@.len() - i,
        {
            let entry = missing.entry_at(i);
            let aspects = missing.aspects_at(i);
            let ghost goal_entry = note_entry_from(space@.missing, agent@, entry@, aspects@, 0);
            let mut j: usize = 0;
            while j < aspects.len()
                invariant
                    j <= aspects@.len(),
                    space.wf(),
                    space@ == (SpaceView { missing: space@.missing, ..sv }),
                    goal_entry == note_entry_from(
                        space@.missing,
                        agent@,
                        entry@,
                        aspects@,
                        j as int,
                    ),
                decreases aspects@.len() - j,
            {
                space.add_missing_aspect(
                    agent.clone(),
                    entry.clone(),
                    aspects.member_at(j).clone(),
                );
                j += 1;
            }
            i += 1;
        }
        let all = agent_ids(space.all_agents());
        assert(all@.len() == ids_view(all@).len());
        assert(all@.len() == sv.agents.len());
        self.put_space(sp.clone(), space);
        assert(self@.spaces =~= s1.spaces.insert(
            sp@,
            SpaceView { missing: goal_ledger, ..sv },
        ));
        assert(self@ == s1.put_space(sp@, SpaceView { missing: goal_ledger, ..sv }));
        assert(s1.algorithm == old(self)@.algorithm);
        match algorithm {
            DhtAlgorithm::FullSync => {
                if all.len() != 1 {
                    self.fetch_aspects_from_arbitrary_agent(
                        missing,
                        agent.clone(),
                        all,
                        sp.clone(),
                    );
                }
            },
            DhtAlgorithm::NaiveSharding { redundant_count } => {
                self.fetch_by_shard(&missing, agent, sp, redundant_count);
            },
        }
    }

    /// Takes in the answer of `agent` to a request for an entry. An answer
    /// without a request id brings what the agent authored; any other id
    /// names the agent that the aspects are for, which gets each of them to
    /// store and has it struck from the ledger.
    fn handle_fetch_entry_result(&mut self, sp: &SpaceHash, agent: &AgentId, d: FetchEntryResultData)
        requires
            old(self).wf(),
        ensures
            final(self).wf(),
            final(self)@ == old(self)@.handle_fetch_entry_result(sp@, agent@, d@),
    {
        if d.request_id.as_str().is_empty() {
            self.handle_new_entry_data(d.entry, sp.clone(), agent.clone());
            return ;
        }
        let to = d.request_id;
        let uri = match self.lookup_joined(sp, &to) {
            Some(uri) => uri,
            None => {
                return ;
            },
        };
        let entry = d.entry;
        let ghost aspects = aspect_data_view(entry.aspect_list@);
        let ghost goal = self@.deliver_from(
            sp@,
            agent@,
            to@,
            uri@,
            entry.entry_address@,
            aspects,
            0,
        );
        let mut i: usize = 0;
        while i < entry.aspect_list.len()
            invariant
                i <= entry.aspect_list@.len(),
                aspects == aspect_data_view(entry.aspect_list@),
                self.wf(),
                goal == self@.deliver_from(
                    sp@,
                    agent@,
                    to@,
                    uri@,
                    entry.entry_address@,
                    aspects,
                    i as int,
                ),
            decreases entry.aspect_list@.len() - i,
        {
            let ghost before = self@;
            let mut space = self.take_space(sp);
            space.remove_missing_aspect(
                &to,
                &entry.entry_address,
                &entry.aspect_list[i].aspect_address,
            );
            let ghost sv = space@;
            self.put_space(sp.clone(), space);
            assert(self@.spaces =~= before.spaces.insert(sp@, sv));
            let msg = WireMessage::Lib3hToClient(
                Lib3hToClient::HandleStoreEntryAspect(
                    StoreEntryAspectData {
                        request_id: String::new(),
                        space_address: sp.clone(),
                        provider_agent_id: agent.clone(),
                        entry_address: entry.entry_address.clone(),
                        entry_aspect: entry.aspect_list[i].duplicate(),
                    },
                ),
            );
            assert(msg@ == store_request(sp@, agent@, entry.entry_address@, aspects[i as int]));
            self.send(to.clone(), uri.clone(), &msg);
            i += 1;
        }
    }

    /// Passes a query about an entry on to one of the agents that are to hold
    /// the entry, by preference one that lacks no aspect of it, chosen by a
    /// shuffle; to the agent that asked, if nobody is to hold the entry.
    fn handle_query_entry(&mut self, sp: &SpaceHash, q: QueryEntryData) -> (r: Result<
        (),
        Sim2hError,
    >)
        requires
            old(self).wf(),
        ensures
            final(self).wf(),
            (final(self)@, r) == old(self)@.handle_query_entry(sp@, q@),
            old(self)@.algorithm matches DhtAlgorithm::NaiveSharding { redundant_count } ==> {
                let candidates = old(self)@.query_candidates(
                    sp@,
                    q@.entry_address,
                    q@.entry_location,
                    redundant_count,
                );
                candidates.len() > 0 ==> shuffle_keeps(candidates, old(self)@.seed)
            },
    {
        let redundant_count = match self.dht_algorithm {
            DhtAlgorithm::FullSync => {
                return Err(Sim2hError::QueryInFullSync);
            },
            DhtAlgorithm::NaiveSharding { redundant_count } => redundant_count,
        };
        let space = self.take_space(sp);
        let pool = ids_of(&space.agents_supposed_to_hold_entry(q.entry_location, redundant_count));
        let mut complete: Vec<AgentId> = Vec::new();
        let ghost goal = complete_holders_from(
            space@.missing,
            q.entry_address@,
            ids_view(pool@),
            0,
            Seq::empty(),
        );
        assert(ids_view(complete@) =~= Seq::<Key>::empty());
        let mut i: usize = 0;
        while i < pool.len()
            invariant
                i <= pool@.len(),
                goal == complete_holders_from(
                    space@.missing,
                    q.entry_address@,
                    ids_view(pool@),
                    i as int,
                    ids_view(complete@),
                ),
            decreases pool@.len() - i,
        {
            if !space.agent_is_missing_some_aspect_for_entry(&pool[i], &q.entry_address) {
                let ghost before = ids_view(complete@);
                complete.push(pool[i].clone());
                assert(ids_view(complete@) =~= before.push(pool@[i as int]@));
            }
            i += 1;
        }
        self.put_space(sp.clone(), space);
        assert(self@.spaces =~= old(self)@.ensure_space(sp@).spaces);
        let mut candidates = if complete.len() == 0 {
            pool
        } else {
            complete
        };
        assert(ids_view(candidates@) == old(self)@.query_candidates(
            sp@,
            q.entry_address@,
            q.entry_location,
            redundant_count,
        ));
        let target = if candidates.len() == 0 {
            q.requester_agent_id.clone()
        } else {
            let seed = self.draw_seed();
            let ghost before = ids_view(candidates@);
            shuffle_with_seed(&mut candidates, seed);
            proof {
                vstd::seq_lib::to_multiset_len(before);
                vstd::seq_lib::to_multiset_len(ids_view(candidates@));
            }
            candidates[0].clone()
        };
        match self.lookup_joined(sp, &target) {
            Some(uri) => {
                let msg = WireMessage::Lib3hToClient(Lib3hToClient::HandleQueryEntry(q));
                self.send(target, uri, &msg);
                Ok(())
            },
            None => Ok(()),
        }
    }
}

impl Sim2h {
    /// Passes `msg` on to `to` in the space `sp`, if that agent is there.
    fn proxy(&mut self, sp: &SpaceHash, to: &AgentId, msg: WireMessage) -> (r: Result<
        (),
        Sim2hError,
    >)
        requires
            old(self).wf(),
        ensures
            final(self).wf(),
            (final(self)@, r) == old(self)@.proxy(sp@, to@, msg@),
    {
        match self.lookup_joined(sp, to) {
            Some(uri) => {
                self.send(to.clone(), uri, &msg);
                Ok(())
            },
            None => Err(Sim2hError::UnvalidatedProxyAgent),
        }
    }

    /// Takes the agent at `uri` out of its space, if the leave names the
    /// space and the agent that the connection is joined as.
    fn leave(&mut self, uri: &Lib3hUri, data: &SpaceData) -> (r: Result<(), Sim2hError>)
        requires
            old(self).wf(),
        ensures
            final(self).wf(),
            (final(self)@, r) == old(self)@.leave(uri@, data@),
    {
        let matches = match connections_get(&self.state.connections, uri) {
            Some(ConnectionState::Joined(sp, agent)) => {
                assert(self@.connections[uri@] == ConnectionStateView::Joined(sp@, agent@));
                Some(data.agent_id == *agent && data.space_address == *sp)
            },
            Some(ConnectionState::Limbo(q)) => {
                assert(self@.connections[uri@] is Limbo);
                None
            },
            None => None,
        };
        match matches {
            Some(true) => {
                self.disconnect(uri);
                Ok(())
            },
            Some(false) => Err(Sim2hError::SpaceMismatch),
            None => Err(Sim2hError::NotJoined),
        }
    }

    /// Handles a message that arrived over the connection from `uri`, which
    /// has joined the space `space_address` as `agent_id`: passes it on,
    /// takes it in, or turns it down.
    fn handle_joined(
        &mut self,
        uri: &Lib3hUri,
        space_address: &SpaceHash,
        agent_id: &AgentId,
        message: WireMessage,
    ) -> (r: Result<(), Sim2hError>)
        requires
            old(self).wf(),
        ensures
            final(self).wf(),
            (final(self)@, r) == old(self)@.handle_joined(
                uri@,
                space_address@,
                agent_id@,
                message@,
            ),
            keeps(old(self)@, final(self)@),
            joined_are_members(old(self)@) ==> joined_are_members(final(self)@),
            bindings_agree(old(self)@) ==> bindings_agree(final(self)@),
    {
        proof {
            lemma_joined_keeps(self@, uri@, space_address@, agent_id@, message@);
        }
        match message {
            WireMessage::Lib3hToClient(_) => Err(Sim2hError::WrongDirection),
            WireMessage::ClientToLib3hResponse(_) => Err(Sim2hError::WrongDirection),
            WireMessage::ClientToLib3h(ClientToLib3h::JoinSpace(_)) => Err(
                Sim2hError::JoinNotProxied,
            ),
            WireMessage::ClientToLib3h(ClientToLib3h::LeaveSpace(d)) => self.leave(uri, &d),
            WireMessage::ClientToLib3h(ClientToLib3h::SendDirectMessage(d)) => {
                if !(d.from_agent_id == *agent_id) || !(d.space_address == *space_address) {
                    return Err(Sim2hError::SpaceMismatch);
                }
                let to = d.to_agent_id.clone();
                self.proxy(
                    space_address,
                    &to,
                    WireMessage::Lib3hToClient(Lib3hToClient::HandleSendDirectMessage(d)),
                )
            },
            WireMessage::Lib3hToClientResponse(
                Lib3hToClientResponse::HandleSendDirectMessageResult(d),
            ) => {
                if !(d.from_agent_id == *agent_id) || !(d.space_address == *space_address) {
                    return Err(Sim2hError::SpaceMismatch);
                }
                let to = d.to_agent_id.clone();
                self.proxy(
                    space_address,
                    &to,
                    WireMessage::Lib3hToClient(Lib3hToClient::SendDirectMessageResult(d)),
                )
            },
            WireMessage::ClientToLib3h(ClientToLib3h::PublishEntry(d)) => {
                if !(d.provider_agent_id == *agent_id) || !(d.space_address == *space_address) {
                    return Err(Sim2hError::SpaceMismatch);
                }
                self.handle_new_entry_data(d.entry, space_address.clone(), agent_id.clone());
                Ok(())
            },
            WireMessage::Lib3hToClientResponse(
                Lib3hToClientResponse::HandleGetAuthoringEntryListResult(d),
            ) => {
                if !(d.provider_agent_id == *agent_id) || !(d.space_address == *space_address) {
                    return Err(Sim2hError::SpaceMismatch);
                }
                self.handle_unseen_aspects(uri, space_address, agent_id, &d.address_map);
                Ok(())
            },
            WireMessage::Lib3hToClientResponse(
                Lib3hToClientResponse::HandleGetGossipingEntryListResult(d),
            ) => {
                if !(d.provider_agent_id == *agent_id) || !(d.space_address == *space_address) {
                    return Err(Sim2hError::SpaceMismatch);
                }
                self.handle_gossiping_list(uri, space_address, agent_id, &d.address_map);
                Ok(())
            },
            WireMessage::Lib3hToClientResponse(Lib3hToClientResponse::HandleFetchEntryResult(d)) => {
                if !(d.provider_agent_id == *agent_id) || !(d.space_address == *space_address) {
                    return Err(Sim2hError::SpaceMismatch);
                }
                self.handle_fetch_entry_result(space_address, agent_id, d);
                Ok(())
            },
            WireMessage::ClientToLib3h(ClientToLib3h::QueryEntry(q)) => self.handle_query_entry(
                space_address,
                q,
            ),
            WireMessage::Lib3hToClientResponse(Lib3hToClientResponse::HandleQueryEntryResult(d)) => {
                if !(d.responder_agent_id == *agent_id) || !(d.space_address == *space_address) {
                    return Err(Sim2hError::SpaceMismatch);
                }
                let to = d.requester_agent_id.clone();
                self.proxy(
                    space_address,
                    &to,
                    WireMessage::ClientToLib3hResponse(ClientToLib3hResponse::QueryEntryResult(d)),
                )
            },
            _ => Err(Sim2hError::NotImplemented),
        }
    }

    /// What the switchboard answers when asked for its status.
    fn status(&self) -> (d: StatusData)
        requires
            self.wf(),
        ensures
            d == self@.status(),
    {
        assert(self@.spaces.dom() =~= space_entries(self.state.spaces).dom());
        StatusData {
            spaces: spaces_len(&self.state.spaces),
            connections: addresses_len(&self.open_connections),
            redundant_count: match self.dht_algorithm {
                DhtAlgorithm::FullSync => 0,
                DhtAlgorithm::NaiveSharding { redundant_count } => redundant_count,
            },
            version: WIRE_VERSION,
        }
    }

    /// Handles a message, signed by `signer`, that arrived over a connection
    /// from `uri` that is not in limbo.
    fn handle_established(&mut self, uri: &Lib3hUri, message: WireMessage, signer: &AgentId) -> (r:
        Result<(), Sim2hError>)
        requires
            old(self).wf(),
        ensures
            final(self).wf(),
            (final(self)@, r) == old(self)@.handle_established(uri@, message@, signer@),
            keeps(old(self)@, final(self)@),
            joined_are_members(old(self)@) ==> joined_are_members(final(self)@),
            bindings_agree(old(self)@) ==> bindings_agree(final(self)@),
    {
        proof {
            lemma_established_keeps(self@, uri@, message@, signer@);
        }
        match &message {
            WireMessage::Ping => {
                self.send(signer.clone(), uri.clone(), &WireMessage::Pong);
                return Ok(());
            },
            WireMessage::Status => {
                let answer = WireMessage::StatusResponse(self.status());
                self.send(signer.clone(), uri.clone(), &answer);
                return Ok(());
            },
            _ => {},
        }
        self.log(Direction::In, signer.clone(), uri.clone(), &message);
        let ghost logged = self@;
        let joined = match connections_get(&self.state.connections, uri) {
            Some(ConnectionState::Joined(sp, agent)) => {
                assert(logged.connections[uri@] == ConnectionStateView::Joined(sp@, agent@));
                Some((sp.clone(), agent.clone()))
            },
            Some(ConnectionState::Limbo(_)) => {
                assert(logged.connections[uri@] is Limbo);
                return Err(Sim2hError::NotJoined);
            },
            None => {
                return Err(Sim2hError::NoConnection);
            },
        };
        match joined {
            Some((sp, agent)) => {
                if !(agent == *signer) {
                    return Err(Sim2hError::SignerMismatch);
                }
                self.handle_joined(uri, &sp, &agent, message)
            },
            None => Err(Sim2hError::NoConnection),
        }
    }

    /// Joins the connection from `uri`, which is in limbo, to the space that
    /// `data` names, as the agent that it names. If the address is that of
    /// another agent of the space, the join is turned down and nothing
    /// changes. Otherwise the agent is put into the space, its two lists are
    /// asked for, and the messages that waited in limbo are handled in the
    /// order of their arrival.
    fn join(&mut self, uri: &Lib3hUri, data: &SpaceData) -> (r: Result<(), Sim2hError>)
        requires
            old(self).wf(),
        ensures
            final(self).wf(),
            (final(self)@, r) == old(self)@.join(uri@, data@),
            keeps(old(self)@, final(self)@),
            joined_are_members(old(self)@) && !has_key(
                old(self)@.space(data.space_address@).agents,
                data.agent_id@,
            ) ==> joined_are_members(final(self)@),
            bindings_agree(old(self)@) && !has_key(
                old(self)@.space(data.space_address@).agents,
                data.agent_id@,
            ) ==> bindings_agree(final(self)@),
    {
        proof {
            lemma_keeps_refl(self@);
        }
        let in_limbo = match connections_get(&self.state.connections, uri) {
            Some(c) => {
                assert(c@ == self@.connections[uri@]);
                c.in_limbo()
            },
            None => false,
        };
        if !in_limbo {
            return Err(Sim2hError::NotInLimbo);
        }
        let claimed = match self.space_ref(&data.space_address) {
            Some(space) => space.uri_claimed_by_other(&data.agent_id, uri),
            None => false,
        };
        if claimed {
            return Err(Sim2hError::UriClaimed);
        }
        let queue = match connections_remove(&mut self.state.connections, uri) {
            Some(ConnectionState::Limbo(q)) => q,
            _ => {
                return Err(Sim2hError::NotInLimbo);
            },
        };
        assert(self@.connections =~= old(self)@.connections.remove(uri@));
        assert(messages_view(queue@) == old(self)@.connections[uri@]->Limbo_0);
        proof {
            lemma_join_keeps(old(self)@, uri@, data@);
        }
        self.set_connection(
            uri.clone(),
            ConnectionState::new_joined(data.space_address.clone(), data.agent_id.clone()),
        );
        assert(self@.connections =~= old(self)@.connections.insert(
            uri@,
            ConnectionStateView::Joined(data.space_address@, data.agent_id@),
        ));
        let mut space = self.take_space(&data.space_address);
        let joined = space.join_agent(data.agent_id.clone(), uri.clone(), data.agent_location);
        let ghost sv2 = space@;
        self.put_space(data.space_address.clone(), space);
        match joined {
            Err(e) => {
                return Err(e);
            },
            Ok(_) => {},
        }
        assert(self@.spaces =~= old(self)@.spaces.insert(data.space_address@, sv2));
        self.request_authoring_list(
            uri.clone(),
            data.space_address.clone(),
            data.agent_id.clone(),
        );
        self.request_gossiping_list(
            uri.clone(),
            data.space_address.clone(),
            data.agent_id.clone(),
        );
        let ghost goal = self@.replay_from(uri@, messages_view(queue@), data.agent_id@, 0);
        assert(self@ == crate::invariants::joined_before_replay(old(self)@, uri@, data@));
        let mut i: usize = 0;
        while i < queue.len()
            invariant
                i <= queue@.len(),
                self.wf(),
                old(self).wf(),
                goal == self@.replay_from(uri@, messages_view(queue@), data.agent_id@, i as int),
                keeps(old(self)@, self@),
                joined_are_members(old(self)@) && !has_key(
                    old(self)@.space(data.space_address@).agents,
                    data.agent_id@,
                ) ==> joined_are_members(self@),
                bindings_agree(old(self)@) && !has_key(
                    old(self)@.space(data.space_address@).agents,
                    data.agent_id@,
                ) ==> bindings_agree(self@),
            decreases queue@.len() - i,
        {
            let ghost before = self@;
            let outcome = self.handle_established(uri, queue[i].duplicate(), &data.agent_id);
            let ghost mid = self@;
            self.report_outcome(outcome);
            proof {
                lemma_established_keeps(
                    before,
                    uri@,
                    messages_view(queue@)[i as int],
                    data.agent_id@,
                );
                lemma_report_quiet(mid, outcome);
                lemma_quiet_keeps(mid, self@);
                lemma_keeps_chain(before, mid, self@);
                lemma_keeps_chain(old(self)@, before, self@);
            }
            i += 1;
        }
        Ok(())
    }

    /// Handles a message, signed by `signer`, that arrived over the
    /// connection from `uri`. A ping is answered with a pong and a status
    /// request with the status, whatever the state of the connection. In
    /// limbo a join is carried out, if the agent that it names signed it, and
    /// any other message is kept for after the join, of which the sender is
    /// told. On a joined connection the message is handled if the agent that
    /// the connection is joined as signed it.
    pub fn handle_message(&mut self, uri: &Lib3hUri, message: WireMessage, signer: &AgentId) -> (r:
        Result<(), Sim2hError>)
        requires
            old(self).wf(),
        ensures
            final(self).wf(),
            (final(self)@, r) == old(self)@.handle_message(uri@, message@, signer@),
            keeps(old(self)@, final(self)@),
            joined_are_members(old(self)@) && !rejoins(old(self)@, uri@, message@, signer@)
                ==> joined_are_members(final(self)@),
            bindings_agree(old(self)@) && !rejoins(old(self)@, uri@, message@, signer@)
                ==> bindings_agree(final(self)@),
    {
        proof {
            lemma_keeps_refl(self@);
            lemma_established_keeps(self@, uri@, message@, signer@);
            if self@.connections.contains_key(uri@) && self@.connections[uri@] is Limbo && !(
            message@ matches WireMessageView::ClientToLib3h(
                crate::protocol::ClientToLib3hView::JoinSpace(_),
            )) {
                lemma_limbo_keeps(self@, uri@, message@, signer@);
            }
        }
        let in_limbo = match connections_get(&self.state.connections, uri) {
            Some(c) => {
                assert(c@ == self@.connections[uri@]);
                c.in_limbo()
            },
            None => false,
        };
        let immediate = match &message {
            WireMessage::Ping => true,
            WireMessage::Status => true,
            _ => false,
        };
        if !in_limbo || immediate {
            return self.handle_established(uri, message, signer);
        }
        self.log(Direction::In, signer.clone(), uri.clone(), &message);
        let ghost logged = self@;
        proof {
            old(self)@.lemma_logged_quiet(Direction::In, signer@, uri@, message@);
            lemma_quiet_keeps(old(self)@, logged);
        }
        match message {
            WireMessage::ClientToLib3h(ClientToLib3h::JoinSpace(d)) => {
                if !(d.agent_id == *signer) {
                    return Err(Sim2hError::SignerMismatch);
                }
                let r = self.join(uri, &d);
                proof {
                    lemma_keeps_chain(old(self)@, logged, self@);
                }
                r
            },
            other => {
                let ghost mv = other@;
                match connections_remove(&mut self.state.connections, uri) {
                    Some(ConnectionState::Limbo(q)) => {
                        let mut q = q;
                        let ghost before = messages_view(q@);
                        assert(self@.connections =~= logged.connections.remove(uri@));
                        q.push(other);
                        assert(messages_view(q@) =~= before.push(mv));
                        self.set_connection(uri.clone(), ConnectionState::Limbo(q));
                        assert(self@.connections =~= logged.connections.insert(
                            uri@,
                            ConnectionStateView::Limbo(before.push(mv)),
                        ));
                    },
                    _ => {},
                }
                self.send(signer.clone(), uri.clone(), &WireMessage::Error(WireError::MessageWhileInLimbo));
                Ok(())
            },
        }
    }
}

impl Sim2h {
    /// Takes up a connection that was opened from `uri`: it starts in limbo,
    /// with nothing waiting.
    fn handle_incoming_connect(&mut self, uri: Lib3hUri) -> (r: Result<bool, Sim2hError>)
        requires
            old(self).wf(),
        ensures
            final(self).wf(),
            final(self)@ == old(self)@.handle_incoming_connect(uri@),
            r == Ok::<bool, Sim2hError>(true),
    {
        self.set_connection(uri, ConnectionState::new());
        Ok(true)
    }

    /// Gives up the connection from `uri`, on which the transport failed or
    /// the peer broke the protocol.
    fn priv_drop_connection_for_error(&mut self, uri: &Lib3hUri)
        requires
            old(self).wf(),
        ensures
            final(self).wf(),
            final(self)@ == old(self)@.disconnect(uri@),
    {
        self.disconnect(uri);
    }

    /// Handles a frame that arrived from `uri`. A text frame and a close
    /// frame end the connection. A message is handled, and the error that it
    /// runs into, if any, is reported; a frame that did not verify is
    /// reported and otherwise ignored.
    fn priv_handle_received_data(&mut self, uri: &Lib3hUri, frame: &WsFrame)
        requires
            old(self).wf(),
        ensures
            final(self).wf(),
            final(self)@ == old(self)@.handle_received_data(uri@, frame@),
            keeps(old(self)@, final(self)@),
            joined_are_members(old(self)@) && !rejoins_by(
                old(self)@,
                WssEventView::ReceivedData(uri@, frame@),
            ) ==> joined_are_members(final(self)@),
            bindings_agree(old(self)@) && !rebinds(
                old(self)@,
                WssEventView::ReceivedData(uri@, frame@),
            ) ==> bindings_agree(final(self)@),
    {
        proof {
            lemma_keeps_refl(self@);
            lemma_disconnect_keeps(self@, uri@);
            lemma_disconnect_members(self@, uri@);
            if bindings_agree(self@) {
                lemma_disconnect_forgets(self@, uri@);
            }
            lemma_report_quiet(self@, Err(Sim2hError::VerifyFailed));
            lemma_quiet_keeps(self@, self@.report(Sim2hError::VerifyFailed));
        }
        match frame {
            WsFrame::Text(_) => self.priv_drop_connection_for_error(uri),
            WsFrame::Message(signer, message) => {
                let outcome = self.handle_message(uri, message.duplicate(), signer);
                let ghost mid = self@;
                self.report_outcome(outcome);
                proof {
                    lemma_report_quiet(mid, outcome);
                    lemma_quiet_keeps(mid, self@);
                    lemma_keeps_chain(old(self)@, mid, self@);
                }
            },
            WsFrame::Rejected => self.report(Sim2hError::VerifyFailed),
            WsFrame::Ping => {},
            WsFrame::Pong => {},
            WsFrame::Close => self.disconnect(uri),
        }
    }

    /// Handles one event of the adapter.
    fn handle_event(&mut self, event: &WssEvent)
        requires
            old(self).wf(),
        ensures
            final(self).wf(),
            final(self)@ == old(self)@.handle_event(event@),
            keeps(old(self)@, final(self)@),
            joined_are_members(old(self)@) && !rejoins_by(old(self)@, event@)
                ==> joined_are_members(final(self)@),
            bindings_agree(old(self)@) && !rebinds(old(self)@, event@) ==> bindings_agree(
                final(self)@,
            ),
    {
        proof {
            match event@ {
                WssEventView::IncomingConnection(uri) => {
                    lemma_connect_keeps(self@, uri);
                },
                WssEventView::ReceivedData(_, _) => {},
                WssEventView::Error(uri, _) => {
                    lemma_disconnect_keeps(self@, uri);
                    lemma_disconnect_members(self@, uri);
                    if bindings_agree(self@) {
                        lemma_disconnect_forgets(self@, uri);
                    }
                },
            }
        }
        match event {
            WssEvent::IncomingConnection(uri) => {
                match self.handle_incoming_connect(uri.clone()) {
                    Ok(_) => {
                        addresses_insert(&mut self.open_connections, uri.clone());
                    },
                    Err(e) => self.report(e),
                }
            },
            WssEvent::ReceivedData(uri, frame) => self.priv_handle_received_data(uri, frame),
            WssEvent::Error(uri, _) => self.priv_drop_connection_for_error(uri),
        }
    }

    /// Handles the oldest events of the inbox, in order, up to
    /// `EVENTS_PER_TICK` of them. The others wait for the next tick.
    fn priv_check_wss_events(&mut self)
        requires
            old(self).wf(),
        ensures
            final(self).wf(),
            final(self)@ == old(self)@.drained().handle_events_from(old(self)@.batch(), 0),
            keeps(old(self)@, final(self)@),
            joined_are_members(old(self)@) && rejoin_free_from(
                old(self)@.drained(),
                old(self)@.batch(),
                0,
            ) ==> joined_are_members(final(self)@),
            bindings_agree(old(self)@) && rebinding_free_from(
                old(self)@.drained(),
                old(self)@.batch(),
                0,
            ) ==> bindings_agree(final(self)@),
    {
        let n = if self.inbox.len() <= EVENTS_PER_TICK {
            self.inbox.len()
        } else {
            EVENTS_PER_TICK
        };
        let ghost all = events_view(self.inbox@);
        let mut batch = self.inbox.split_off(n);
        std::mem::swap(&mut batch, &mut self.inbox);
        assert(events_view(self.inbox@) =~= all.skip(n as int));
        assert(events_view(batch@) =~= all.take(n as int));
        let ghost goal = self@.handle_events_from(events_view(batch@), 0);
        let ghost start = self@;
        proof {
            lemma_keeps_refl(old(self)@);
            assert(start == old(self)@.drained());
            assert(keeps(old(self)@, start));
            assert(bindings_agree(old(self)@) == bindings_agree(start));
            assert(joined_are_members(old(self)@) == joined_are_members(start));
        }
        let mut i: usize = 0;
        while i < batch.len()
            invariant
                i <= batch@.len(),
                self.wf(),
                old(self).wf(),
                goal == self@.handle_events_from(events_view(batch@), i as int),
                events_view(batch@) == old(self)@.batch(),
                keeps(old(self)@, self@),
                joined_are_members(old(self)@) && rejoin_free_from(
                    old(self)@.drained(),
                    old(self)@.batch(),
                    0,
                ) ==> joined_are_members(self@) && rejoin_free_from(
                    self@,
                    events_view(batch@),
                    i as int,
                ),
                bindings_agree(old(self)@) && rebinding_free_from(
                    old(self)@.drained(),
                    old(self)@.batch(),
                    0,
                ) ==> bindings_agree(self@) && rebinding_free_from(
                    self@,
                    events_view(batch@),
                    i as int,
                ),
            decreases batch@.len() - i,
        {
            let ghost before = self@;
            self.handle_event(&batch[i]);
            proof {
                lemma_keeps_chain(old(self)@, before, self@);
            }
            i += 1;
        }
    }

    /// Asks every agent that the ledger of the space `sp` has a line for,
    /// and that is in the space, for the list of what it holds.
    fn retry_space(&mut self, sp: &SpaceHash)
        requires
            old(self).wf(),
        ensures
            final(self).wf(),
            final(self)@ == old(self)@.retry_space_from(
                sp@,
                distinct(ledger_agents(old(self)@.space(sp@).missing)),
                0,
            ),
    {
        let agents = match self.space_ref(sp) {
            Some(space) => space.agents_with_missing_aspects(),
            None => {
                let none: Vec<AgentId> = Vec::new();
                assert(ledger_agents(SpaceView::empty().missing) =~= Seq::<Key>::empty());
                assert(ids_view(none@) =~= Seq::<Key>::empty());
                none
            },
        };
        let ghost goal = self@.retry_space_from(sp@, ids_view(agents@), 0);
        let mut j: usize = 0;
        while j < agents.len()
            invariant
                j <= agents@.len(),
                self.wf(),
                goal == self@.retry_space_from(sp@, ids_view(agents@), j as int),
            decreases agents@.len() - j,
        {
            match self.lookup_joined(sp, &agents[j]) {
                Some(uri) => self.request_gossiping_list(uri, sp.clone(), agents[j].clone()),
                None => {},
            }
            j += 1;
        }
    }

    /// Asks every agent that still lacks aspects for the list of what it
    /// holds, space by space. This is what makes up for an agent that went
    /// away between a request and its answer. The spaces are visited in the
    /// order in which the map of spaces hands out its keys, which is
    /// returned.
    fn retry_sync_missing_aspects(&mut self) -> (order: Ghost<Seq<Key>>)
        requires
            old(self).wf(),
        ensures
            final(self).wf(),
            enumerates(order@, old(self)@.spaces),
            final(self)@ == old(self)@.retry_from(order@, 0),
    {
        let keys = spaces_keys(&self.state.spaces);
        let ghost order = ids_view(keys@);
        let ghost goal = self@.retry_from(order, 0);
        let mut i: usize = 0;
        while i < keys.len()
            invariant
                i <= keys@.len(),
                order == ids_view(keys@),
                self.wf(),
                goal == self@.retry_from(order, i as int),
            decreases keys@.len() - i,
        {
            self.retry_space(&keys[i]);
            i += 1;
        }
        Ghost(order)
    }

    /// One tick at the time `now`, in milliseconds: the tick counter moves
    /// on, the oldest events of the inbox are handled, and if a retry round
    /// is due, the next one is put off by the retry interval and every agent
    /// that still lacks aspects is asked for the list of what it holds. The
    /// order in which a retry round visits the spaces is that of the map of
    /// spaces, which does not promise any.
    pub fn process(&mut self, now: u64) -> (r: Result<(), Sim2hError>)
        requires
            old(self).wf(),
        ensures
            final(self).wf(),
            r is Ok,
            !old(self)@.after_events().retry_due(now) ==> final(self)@ == old(
                self,
            )@.after_events(),
            old(self)@.after_events().retry_due(now) ==> exists|order: Seq<Key>|
                enumerates(order, old(self)@.after_events().spaces) && final(self)@ == old(
                    self,
                )@.process(now, order),
            keeps(old(self)@, final(self)@),
            joined_are_members(old(self)@) && rejoin_free_from(
                old(self)@.tick_start(),
                old(self)@.batch(),
                0,
            ) ==> joined_are_members(final(self)@),
            bindings_agree(old(self)@) && rebinding_free_from(
                old(self)@.tick_start(),
                old(self)@.batch(),
                0,
            ) ==> bindings_agree(final(self)@),
    {
        let ghost ticked = Sim2hView { ticks: old(self)@.tick_start().ticks, ..old(self)@ };
        proof {
            lemma_keeps_refl(old(self)@);
            assert(keeps(old(self)@, ticked));
            assert(ticked.drained() == old(self)@.tick_start());
            assert(ticked.batch() == old(self)@.batch());
            assert(bindings_agree(old(self)@) == bindings_agree(ticked));
            assert(joined_are_members(old(self)@) == joined_are_members(ticked));
        }
        self.num_ticks = if self.num_ticks + 1 >= TICKS_PER_ROUND {
            0
        } else {
            self.num_ticks + 1
        };
        assert(self@ == ticked);
        self.priv_check_wss_events();
        assert(self@ == old(self)@.after_events());
        let ghost handled = self@;
        proof {
            lemma_keeps_chain(old(self)@, ticked, handled);
        }
        if now >= self.missing_aspects_resync {
            self.missing_aspects_resync = if now > u64::MAX
                - RETRY_FETCH_MISSING_ASPECTS_INTERVAL_MS {
                u64::MAX
            } else {
                now + RETRY_FETCH_MISSING_ASPECTS_INTERVAL_MS
            };
            let ghost due = self@;
            let Ghost(order) = self.retry_sync_missing_aspects();
            assert(enumerates(order, old(self)@.after_events().spaces));
            assert(self@ == old(self)@.process(now, order));
            proof {
                crate::frame::lemma_retry_frame(due, order, 0);
                lemma_only_sent_quiet(due, self@);
                lemma_quiet_keeps(due, self@);
                lemma_keeps_refl(handled);
                assert(keeps(handled, due));
                assert(bindings_agree(handled) == bindings_agree(due));
                assert(joined_are_members(handled) == joined_are_members(due));
                lemma_keeps_chain(handled, due, self@);
                lemma_keeps_chain(old(self)@, handled, self@);
            }
        }
        Ok(())
    }

    /// What a signed frame comes to, once its signature has been checked and
    /// its payload read: the agent that signed it and the message inside, if
    /// the signature verified and the payload was a message.
    pub fn verify_payload(provenance: AgentId, verified: bool, payload: Option<WireMessage>) -> (r:
        Result<(AgentId, WireMessage), Sim2hError>)
        ensures
            r is Ok == (verified && payload is Some),
            r matches Ok(pair) ==> pair.0 == provenance && Some(pair.1) == payload,
            r matches Err(e) ==> e == Sim2hError::VerifyFailed,
    {
        if !verified {
            return Err(Sim2hError::VerifyFailed);
        }
        match payload {
            Some(message) => Ok((provenance, message)),
            None => Err(Sim2hError::VerifyFailed),
        }
    }

    /// Puts an event of the adapter into the inbox, behind those that wait
    /// there.
    pub fn enqueue(&mut self, event: WssEvent)
        requires
            old(self).wf(),
        ensures
            final(self).wf(),
            final(self)@ == (Sim2hView { inbox: old(self)@.inbox.push(event@), ..old(self)@ }),
    {
        let ghost before = events_view(self.inbox@);
        let ghost ev = event@;
        self.inbox.push(event);
        assert(events_view(self.inbox@) =~= before.push(ev));
    }

    /// Hands out the commands for the adapter, oldest first, and empties the
    /// outbox.
    pub fn take_commands(&mut self) -> (commands: Vec<WssCommand>)
        requires
            old(self).wf(),
        ensures
            final(self).wf(),
            commands_view(commands@) == old(self)@.outbox,
            final(self)@ == (Sim2hView { outbox: Seq::empty(), ..old(self)@ }),
    {
        let mut commands: Vec<WssCommand> = Vec::new();
        std::mem::swap(&mut commands, &mut self.outbox);
        assert(commands_view(self.outbox@) =~= Seq::<WssCommandView>::empty());
        commands
    }

    /// Hands out the lines of the message log, oldest first, and empties the
    /// log.
    pub fn take_message_log(&mut self) -> (log: Vec<MessageLogEntry>)
        requires
            old(self).wf(),
        ensures
            final(self).wf(),
            log_view(log@) == old(self)@.message_log,
            final(self)@ == (Sim2hView { message_log: Seq::empty(), ..old(self)@ }),
    {
        let mut log: Vec<MessageLogEntry> = Vec::new();
        std::mem::swap(&mut log, &mut self.message_log);
        assert(log_view(self.message_log@) =~= Seq::<crate::message_log::MessageLogEntryView>::empty());
        log
    }

    /// Hands out the errors that were reported, oldest first, and forgets
    /// them.
    pub fn take_reports(&mut self) -> (reports: Vec<Sim2hError>)
        requires
            old(self).wf(),
        ensures
            final(self).wf(),
            reports@ == old(self)@.reports,
            final(self)@ == (Sim2hView { reports: Seq::empty(), ..old(self)@ }),
    {
        let mut reports: Vec<Sim2hError> = Vec::new();
        std::mem::swap(&mut reports, &mut self.reports);
        reports
    }

    /// The state of the connection from `uri`, if there is one.
    pub fn get_connection(&self, uri: &Lib3hUri) -> (r: Option<ConnectionState>)
        requires
            self.wf(),
        ensures
            r is Some == self@.connections.contains_key(uri@),
            r matches Some(c) ==> c@ == self@.connections[uri@],
    {
        match connections_get(&self.state.connections, uri) {
            Some(c) => {
                assert(c@ == self@.connections[uri@]);
                Some(c.duplicate())
            },
            None => None,
        }
    }

    /// The space `sp`, if there is one.
    pub fn get_space(&self, sp: &SpaceHash) -> (r: Option<&Space>)
        requires
            self.wf(),
        ensures
            r is Some == self@.spaces.contains_key(sp@),
            r matches Some(space) ==> space@ == self@.spaces[sp@] && space.wf(),
    {
        self.space_ref(sp)
    }

    /// Whether frames can be sent to `uri`.
    pub fn is_open(&self, uri: &Lib3hUri) -> (b: bool)
        ensures
            b == self@.open.contains(uri@),
    {
        addresses_contains(&self.open_connections, uri)
    }

    /// The replication policy.
    pub fn dht_algorithm(&self) -> (a: DhtAlgorithm)
        ensures
            a == self@.algorithm,
    {
        self.dht_algorithm
    }

    /// The number of events that wait in the inbox.
    pub fn pending_events(&self) -> (n: usize)
        ensures
            n == self@.inbox.len(),
    {
        self.inbox.len()
    }
}

} // verus!
