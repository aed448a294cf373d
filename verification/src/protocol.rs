//! The data that the protocol's messages carry, and the four families of
//! messages between clients and the switchboard.

use vstd::prelude::*;
use crate::aspect_list::{Aspects, pairs_view};
use crate::assoc::Key;
use crate::ident::{AgentId, AspectHash, copy_ids, EntryHash, ids_view, Location, SpaceHash};

verus! {

/// The model of an optional vector of identifiers.
pub open spec fn opt_ids_view(o: Option<Vec<String>>) -> Option<Seq<Key>> {
    match o {
        Some(v) => Some(ids_view(v@)),
        None => None,
    }
}

/// The model of a vector of aspects.
pub open spec fn aspect_data_view(v: Seq<EntryAspectData>) -> Seq<EntryAspectDataView> {
    Seq::new(v.len(), |i: int| v[i]@)
}

/// A copy of a byte string.
pub fn copy_bytes(v: &Vec<u8>) -> (r: Vec<u8>)
    ensures
        r@ == v@,
{
    let mut r: Vec<u8> = Vec::new();
    let mut i: usize = 0;
    while i < v.len()
        invariant
            i <= v@.len(),
            r@ == v@.take(i as int),
        decreases v@.len() - i,
    {
        r.push(v[i]);
        assert(r@ =~= v@.take(i + 1));
        i += 1;
    }
    assert(v@.take(i as int) =~= v@);
    r
}

/// A copy of an optional vector of identifiers.
pub fn copy_opt_ids(o: &Option<Vec<String>>) -> (r: Option<Vec<String>>)
    ensures
        opt_ids_view(r) == opt_ids_view(*o),
{
    match o {
        Some(v) => Some(copy_ids(v)),
        None => None,
    }
}

/// A copy of a vector of aspects.
pub fn copy_aspect_data(v: &Vec<EntryAspectData>) -> (r: Vec<EntryAspectData>)
    ensures
        aspect_data_view(r@) == aspect_data_view(v@),
{
    let mut r: Vec<EntryAspectData> = Vec::new();
    let mut i: usize = 0;
    while i < v.len()
        invariant
            i <= v@.len(),
            r@.len() == i,
            forall|j: int| 0 <= j < i ==> (#[trigger] r@[j])@ == v@[j]@,
        decreases v@.len() - i,
    {
        r.push(v[i].duplicate());
        i += 1;
    }
    assert(aspect_data_view(r@) =~= aspect_data_view(v@));
    r
}

/// A copy of a list of entries with their aspects.
pub fn copy_pairs(v: &Vec<(EntryHash, Vec<AspectHash>)>) -> (r: Vec<(EntryHash, Vec<AspectHash>)>)
    ensures
        pairs_view(r@) == pairs_view(v@),
{
    let mut r: Vec<(EntryHash, Vec<AspectHash>)> = Vec::new();
    let mut i: usize = 0;
    while i < v.len()
        invariant
            i <= v@.len(),
            r@.len() == i,
            forall|j: int| 0 <= j < i ==> #[trigger] pairs_view(r@)[j] == pairs_view(v@)[j],
        decreases v@.len() - i,
    {
        let ghost before = r@;
        let xs = copy_ids(&v[i].1);
        r.push((v[i].0.clone(), xs));
        proof {
            assert forall|j: int| 0 <= j <= i implies #[trigger] pairs_view(r@)[j] == pairs_view(
                v@,
            )[j] by {
                if j < i {
                    assert(pairs_view(before)[j] == pairs_view(v@)[j]);
                    assert(r@[j] == before[j]);
                } else {
                    assert(pairs_view(r@)[j].1 =~= ids_view(xs@));
                    assert(pairs_view(v@)[j].1 =~= ids_view(v@[j].1@));
                }
            }
        }
        i += 1;
    }
    assert(pairs_view(r@) =~= pairs_view(v@));
    r
}

/// Names a space and an agent: what a join or a leave is about.
#[derive(Clone, Debug, PartialEq, Eq)]
pub struct SpaceData {
    pub request_id: String,
    pub space_address: SpaceHash,
    pub agent_id: AgentId,
    pub agent_location: Location,
}

/// The model of a `SpaceData`.
pub struct SpaceDataView {
    pub request_id: Key,
    pub space_address: Key,
    pub agent_id: Key,
    pub agent_location: u32,
}

impl View for SpaceData {
    type V = SpaceDataView;

    open spec fn view(&self) -> SpaceDataView {
        SpaceDataView {
            request_id: self.request_id@,
            space_address: self.space_address@,
            agent_id: self.agent_id@,
            agent_location: self.agent_location,
        }
    }
}

impl SpaceData {
    /// A copy of the value.
    pub fn duplicate(&self) -> (r: Self)
        ensures
            r@ == self@,
    {
        SpaceData {
            request_id: self.request_id.clone(),
            space_address: self.space_address.clone(),
            agent_id: self.agent_id.clone(),
            agent_location: self.agent_location,
        }
    }
}

/// A message from one agent of a space to another.
#[derive(Clone, Debug, PartialEq, Eq)]
pub struct DirectMessageData {
    pub space_address: SpaceHash,
    pub request_id: String,
    pub to_agent_id: AgentId,
    pub from_agent_id: AgentId,
    pub content: Vec<u8>,
}

/// The model of a `DirectMessageData`.
pub struct DirectMessageDataView {
    pub space_address: Key,
    pub request_id: Key,
    pub to_agent_id: Key,
    pub from_agent_id: Key,
    pub content: Seq<u8>,
}

impl View for DirectMessageData {
    type V = DirectMessageDataView;

    open spec fn view(&self) -> DirectMessageDataView {
        DirectMessageDataView {
            space_address: self.space_address@,
            request_id: self.request_id@,
            to_agent_id: self.to_agent_id@,
            from_agent_id: self.from_agent_id@,
            content: self.content@,
        }
    }
}

impl DirectMessageData {
    /// A copy of the value.
    pub fn duplicate(&self) -> (r: Self)
        ensures
            r@ == self@,
    {
        DirectMessageData {
            space_address: self.space_address.clone(),
            request_id: self.request_id.clone(),
            to_agent_id: self.to_agent_id.clone(),
            from_agent_id: self.from_agent_id.clone(),
            content: copy_bytes(&self.content),
        }
    }
}

/// One aspect of an entry: its address and its content.
#[derive(Clone, Debug, PartialEq, Eq)]
pub struct EntryAspectData {
    pub aspect_address: AspectHash,
    pub type_hint: String,
    pub aspect: Vec<u8>,
    pub publish_ts: u64,
}

/// The model of a `EntryAspectData`.
pub struct EntryAspectDataView {
    pub aspect_address: Key,
    pub type_hint: Key,
    pub aspect: Seq<u8>,
    pub publish_ts: u64,
}

impl View for EntryAspectData {
    type V = EntryAspectDataView;

    open spec fn view(&self) -> EntryAspectDataView {
        EntryAspectDataView {
            aspect_address: self.aspect_address@,
            type_hint: self.type_hint@,
            aspect: self.aspect@,
            publish_ts: self.publish_ts,
        }
    }
}

impl EntryAspectData {
    /// A copy of the value.
    pub fn duplicate(&self) -> (r: Self)
        ensures
            r@ == self@,
    {
        EntryAspectData {
            aspect_address: self.aspect_address.clone(),
            type_hint: self.type_hint.clone(),
            aspect: copy_bytes(&self.aspect),
            publish_ts: self.publish_ts,
        }
    }
}

/// An entry with the aspects that come with it.
#[derive(Clone, Debug, PartialEq, Eq)]
pub struct EntryData {
    pub entry_address: EntryHash,
    pub entry_location: Location,
    pub aspect_list: Vec<EntryAspectData>,
}

/// The model of a `EntryData`.
pub struct EntryDataView {
    pub entry_address: Key,
    pub entry_location: u32,
    pub aspect_list: Seq<EntryAspectDataView>,
}

impl View for EntryData {
    type V = EntryDataView;

    open spec fn view(&self) -> EntryDataView {
        EntryDataView {
            entry_address: self.entry_address@,
            entry_location: self.entry_location,
            aspect_list: aspect_data_view(self.aspect_list@),
        }
    }
}

impl EntryData {
    /// A copy of the value.
    pub fn duplicate(&self) -> (r: Self)
        ensures
            r@ == self@,
    {
        EntryData {
            entry_address: self.entry_address.clone(),
            entry_location: self.entry_location,
            aspect_list: copy_aspect_data(&self.aspect_list),
        }
    }
}

/// An entry that an agent publishes into a space.
#[derive(Clone, Debug, PartialEq, Eq)]
pub struct ProvidedEntryData {
    pub space_address: SpaceHash,
    pub provider_agent_id: AgentId,
    pub entry: EntryData,
}

/// The model of a `ProvidedEntryData`.
pub struct ProvidedEntryDataView {
    pub space_address: Key,
    pub provider_agent_id: Key,
    pub entry: EntryDataView,
}

impl View for ProvidedEntryData {
    type V = ProvidedEntryDataView;

    open spec fn view(&self) -> ProvidedEntryDataView {
        ProvidedEntryDataView {
            space_address: self.space_address@,
            provider_agent_id: self.provider_agent_id@,
            entry: self.entry@,
        }
    }
}

impl ProvidedEntryData {
    /// A copy of the value.
    pub fn duplicate(&self) -> (r: Self)
        ensures
            r@ == self@,
    {
        ProvidedEntryData {
            space_address: self.space_address.clone(),
            provider_agent_id: self.provider_agent_id.clone(),
            entry: self.entry.duplicate(),
        }
    }
}

/// What an agent reports that it authored or holds: entries, each with aspects.
#[derive(Clone, Debug, PartialEq, Eq)]
pub struct EntryListData {
    pub space_address: SpaceHash,
    pub provider_agent_id: AgentId,
    pub request_id: String,
    pub address_map: Vec<(EntryHash, Vec<AspectHash>)>,
}

/// The model of a `EntryListData`.
pub struct EntryListDataView {
    pub space_address: Key,
    pub provider_agent_id: Key,
    pub request_id: Key,
    pub address_map: Aspects,
}

impl View for EntryListData {
    type V = EntryListDataView;

    open spec fn view(&self) -> EntryListDataView {
        EntryListDataView {
            space_address: self.space_address@,
            provider_agent_id: self.provider_agent_id@,
            request_id: self.request_id@,
            address_map: pairs_view(self.address_map@),
        }
    }
}

impl EntryListData {
    /// A copy of the value.
    pub fn duplicate(&self) -> (r: Self)
        ensures
            r@ == self@,
    {
        EntryListData {
            space_address: self.space_address.clone(),
            provider_agent_id: self.provider_agent_id.clone(),
            request_id: self.request_id.clone(),
            address_map: copy_pairs(&self.address_map),
        }
    }
}

/// An agent's answer to a request for an entry.
#[derive(Clone, Debug, PartialEq, Eq)]
pub struct FetchEntryResultData {
    pub space_address: SpaceHash,
    pub provider_agent_id: AgentId,
    pub request_id: String,
    pub entry: EntryData,
}

/// The model of a `FetchEntryResultData`.
pub struct FetchEntryResultDataView {
    pub space_address: Key,
    pub provider_agent_id: Key,
    pub request_id: Key,
    pub entry: EntryDataView,
}

impl View for FetchEntryResultData {
    type V = FetchEntryResultDataView;

    open spec fn view(&self) -> FetchEntryResultDataView {
        FetchEntryResultDataView {
            space_address: self.space_address@,
            provider_agent_id: self.provider_agent_id@,
            request_id: self.request_id@,
            entry: self.entry@,
        }
    }
}

impl FetchEntryResultData {
    /// A copy of the value.
    pub fn duplicate(&self) -> (r: Self)
        ensures
            r@ == self@,
    {
        FetchEntryResultData {
            space_address: self.space_address.clone(),
            provider_agent_id: self.provider_agent_id.clone(),
            request_id: self.request_id.clone(),
            entry: self.entry.duplicate(),
        }
    }
}

/// A query about an entry.
#[derive(Clone, Debug, PartialEq, Eq)]
pub struct QueryEntryData {
    pub space_address: SpaceHash,
    pub entry_address: EntryHash,
    pub entry_location: Location,
    pub request_id: String,
    pub requester_agent_id: AgentId,
    pub query: Vec<u8>,
}

/// The model of a `QueryEntryData`.
pub struct QueryEntryDataView {
    pub space_address: Key,
    pub entry_address: Key,
    pub entry_location: u32,
    pub request_id: Key,
    pub requester_agent_id: Key,
    pub query: Seq<u8>,
}

impl View for QueryEntryData {
    type V = QueryEntryDataView;

    open spec fn view(&self) -> QueryEntryDataView {
        QueryEntryDataView {
            space_address: self.space_address@,
            entry_address: self.entry_address@,
            entry_location: self.entry_location,
            request_id: self.request_id@,
            requester_agent_id: self.requester_agent_id@,
            query: self.query@,
        }
    }
}

impl QueryEntryData {
    /// A copy of the value.
    pub fn duplicate(&self) -> (r: Self)
        ensures
            r@ == self@,
    {
        QueryEntryData {
            space_address: self.space_address.clone(),
            entry_address: self.entry_address.clone(),
            entry_location: self.entry_location,
            request_id: self.request_id.clone(),
            requester_agent_id: self.requester_agent_id.clone(),
            query: copy_bytes(&self.query),
        }
    }
}

/// The answer to a query about an entry.
#[derive(Clone, Debug, PartialEq, Eq)]
pub struct QueryEntryResultData {
    pub space_address: SpaceHash,
    pub entry_address: EntryHash,
    pub request_id: String,
    pub requester_agent_id: AgentId,
    pub responder_agent_id: AgentId,
    pub query_result: Vec<u8>,
}

/// The model of a `QueryEntryResultData`.
pub struct QueryEntryResultDataView {
    pub space_address: Key,
    pub entry_address: Key,
    pub request_id: Key,
    pub requester_agent_id: Key,
    pub responder_agent_id: Key,
    pub query_result: Seq<u8>,
}

impl View for QueryEntryResultData {
    type V = QueryEntryResultDataView;

    open spec fn view(&self) -> QueryEntryResultDataView {
        QueryEntryResultDataView {
            space_address: self.space_address@,
            entry_address: self.entry_address@,
            request_id: self.request_id@,
            requester_agent_id: self.requester_agent_id@,
            responder_agent_id: self.responder_agent_id@,
            query_result: self.query_result@,
        }
    }
}

impl QueryEntryResultData {
    /// A copy of the value.
    pub fn duplicate(&self) -> (r: Self)
        ensures
            r@ == self@,
    {
        QueryEntryResultData {
            space_address: self.space_address.clone(),
            entry_address: self.entry_address.clone(),
            request_id: self.request_id.clone(),
            requester_agent_id: self.requester_agent_id.clone(),
            responder_agent_id: self.responder_agent_id.clone(),
            query_result: copy_bytes(&self.query_result),
        }
    }
}

/// A request for the list of what an agent authored or holds.
#[derive(Clone, Debug, PartialEq, Eq)]
pub struct GetListData {
    pub space_address: SpaceHash,
    pub provider_agent_id: AgentId,
    pub request_id: String,
}

/// The model of a `GetListData`.
pub struct GetListDataView {
    pub space_address: Key,
    pub provider_agent_id: Key,
    pub request_id: Key,
}

impl View for GetListData {
    type V = GetListDataView;

    open spec fn view(&self) -> GetListDataView {
        GetListDataView {
            space_address: self.space_address@,
            provider_agent_id: self.provider_agent_id@,
            request_id: self.request_id@,
        }
    }
}

impl GetListData {
    /// A copy of the value.
    pub fn duplicate(&self) -> (r: Self)
        ensures
            r@ == self@,
    {
        GetListData {
            space_address: self.space_address.clone(),
            provider_agent_id: self.provider_agent_id.clone(),
            request_id: self.request_id.clone(),
        }
    }
}

/// A request for an entry, or for some of its aspects.
#[derive(Clone, Debug, PartialEq, Eq)]
pub struct FetchEntryData {
    pub space_address: SpaceHash,
    pub entry_address: EntryHash,
    pub request_id: String,
    pub provider_agent_id: AgentId,
    pub aspect_address_list: Option<Vec<AspectHash>>,
}

/// The model of a `FetchEntryData`.
pub struct FetchEntryDataView {
    pub space_address: Key,
    pub entry_address: Key,
    pub request_id: Key,
    pub provider_agent_id: Key,
    pub aspect_address_list: Option<Seq<Key>>,
}

impl View for FetchEntryData {
    type V = FetchEntryDataView;

    open spec fn view(&self) -> FetchEntryDataView {
        FetchEntryDataView {
            space_address: self.space_address@,
            entry_address: self.entry_address@,
            request_id: self.request_id@,
            provider_agent_id: self.provider_agent_id@,
            aspect_address_list: opt_ids_view(self.aspect_address_list),
        }
    }
}

impl FetchEntryData {
    /// A copy of the value.
    pub fn duplicate(&self) -> (r: Self)
        ensures
            r@ == self@,
    {
        FetchEntryData {
            space_address: self.space_address.clone(),
            entry_address: self.entry_address.clone(),
            request_id: self.request_id.clone(),
            provider_agent_id: self.provider_agent_id.clone(),
            aspect_address_list: copy_opt_ids(&self.aspect_address_list),
        }
    }
}

/// An aspect of an entry for an agent to store.
#[derive(Clone, Debug, PartialEq, Eq)]
pub struct StoreEntryAspectData {
    pub request_id: String,
    pub space_address: SpaceHash,
    pub provider_agent_id: AgentId,
    pub entry_address: EntryHash,
    pub entry_aspect: EntryAspectData,
}

/// The model of a `StoreEntryAspectData`.
pub struct StoreEntryAspectDataView {
    pub request_id: Key,
    pub space_address: Key,
    pub provider_agent_id: Key,
    pub entry_address: Key,
    pub entry_aspect: EntryAspectDataView,
}

impl View for StoreEntryAspectData {
    type V = StoreEntryAspectDataView;

    open spec fn view(&self) -> StoreEntryAspectDataView {
        StoreEntryAspectDataView {
            request_id: self.request_id@,
            space_address: self.space_address@,
            provider_agent_id: self.provider_agent_id@,
            entry_address: self.entry_address@,
            entry_aspect: self.entry_aspect@,
        }
    }
}

impl StoreEntryAspectData {
    /// A copy of the value.
    pub fn duplicate(&self) -> (r: Self)
        ensures
            r@ == self@,
    {
        StoreEntryAspectData {
            request_id: self.request_id.clone(),
            space_address: self.space_address.clone(),
            provider_agent_id: self.provider_agent_id.clone(),
            entry_address: self.entry_address.clone(),
            entry_aspect: self.entry_aspect.duplicate(),
        }
    }
}

/// What a client asks of the switchboard.
#[derive(Clone, Debug, PartialEq, Eq)]
pub enum ClientToLib3h {
    /// Asks to be introduced to the network; the switchboard has no use for it.
    Bootstrap,
    /// Asks to join a space.
    JoinSpace(SpaceData),
    /// Asks to leave a space.
    LeaveSpace(SpaceData),
    /// Sends a message to another agent of the space.
    SendDirectMessage(DirectMessageData),
    /// Publishes an entry into the space.
    PublishEntry(ProvidedEntryData),
    /// Asks the holders of an entry about it.
    QueryEntry(QueryEntryData),
}

/// The model of a `ClientToLib3h`.
pub enum ClientToLib3hView {
    Bootstrap,
    JoinSpace(SpaceDataView),
    LeaveSpace(SpaceDataView),
    SendDirectMessage(DirectMessageDataView),
    PublishEntry(ProvidedEntryDataView),
    QueryEntry(QueryEntryDataView),
}

impl View for ClientToLib3h {
    type V = ClientToLib3hView;

    open spec fn view(&self) -> ClientToLib3hView {
        match self {
            ClientToLib3h::Bootstrap => ClientToLib3hView::Bootstrap,
            ClientToLib3h::JoinSpace(d) => ClientToLib3hView::JoinSpace(d@),
            ClientToLib3h::LeaveSpace(d) => ClientToLib3hView::LeaveSpace(d@),
            ClientToLib3h::SendDirectMessage(d) => ClientToLib3hView::SendDirectMessage(d@),
            ClientToLib3h::PublishEntry(d) => ClientToLib3hView::PublishEntry(d@),
            ClientToLib3h::QueryEntry(d) => ClientToLib3hView::QueryEntry(d@),
        }
    }
}

impl ClientToLib3h {
    /// A copy of the value.
    pub fn duplicate(&self) -> (r: Self)
        ensures
            r@ == self@,
    {
        match self {
            ClientToLib3h::Bootstrap => ClientToLib3h::Bootstrap,
            ClientToLib3h::JoinSpace(d) => ClientToLib3h::JoinSpace(d.duplicate()),
            ClientToLib3h::LeaveSpace(d) => ClientToLib3h::LeaveSpace(d.duplicate()),
            ClientToLib3h::SendDirectMessage(d) => ClientToLib3h::SendDirectMessage(d.duplicate()),
            ClientToLib3h::PublishEntry(d) => ClientToLib3h::PublishEntry(d.duplicate()),
            ClientToLib3h::QueryEntry(d) => ClientToLib3h::QueryEntry(d.duplicate()),
        }
    }
}

/// What the switchboard answers a client.
#[derive(Clone, Debug, PartialEq, Eq)]
pub enum ClientToLib3hResponse {
    /// The answer to a query, on its way back to the agent that asked.
    QueryEntryResult(QueryEntryResultData),
}

/// The model of a `ClientToLib3hResponse`.
pub enum ClientToLib3hResponseView {
    QueryEntryResult(QueryEntryResultDataView),
}

impl View for ClientToLib3hResponse {
    type V = ClientToLib3hResponseView;

    open spec fn view(&self) -> ClientToLib3hResponseView {
        match self {
            ClientToLib3hResponse::QueryEntryResult(d) =>
                ClientToLib3hResponseView::QueryEntryResult(d@),
        }
    }
}

impl ClientToLib3hResponse {
    /// A copy of the value.
    pub fn duplicate(&self) -> (r: Self)
        ensures
            r@ == self@,
    {
        match self {
            ClientToLib3hResponse::QueryEntryResult(d) =>
                ClientToLib3hResponse::QueryEntryResult(d.duplicate()),
        }
    }
}

/// What the switchboard asks of a client.
#[derive(Clone, Debug, PartialEq, Eq)]
pub enum Lib3hToClient {
    /// Delivers a message from another agent.
    HandleSendDirectMessage(DirectMessageData),
    /// Delivers the answer to a message that the client sent.
    SendDirectMessageResult(DirectMessageData),
    /// Asks what the agent has authored.
    HandleGetAuthoringEntryList(GetListData),
    /// Asks what the agent holds.
    HandleGetGossipingEntryList(GetListData),
    /// Asks for an entry, or for some of its aspects.
    HandleFetchEntry(FetchEntryData),
    /// Hands over an aspect to store.
    HandleStoreEntryAspect(StoreEntryAspectData),
    /// Passes on a query about an entry.
    HandleQueryEntry(QueryEntryData),
}

/// The model of a `Lib3hToClient`.
pub enum Lib3hToClientView {
    HandleSendDirectMessage(DirectMessageDataView),
    SendDirectMessageResult(DirectMessageDataView),
    HandleGetAuthoringEntryList(GetListDataView),
    HandleGetGossipingEntryList(GetListDataView),
    HandleFetchEntry(FetchEntryDataView),
    HandleStoreEntryAspect(StoreEntryAspectDataView),
    HandleQueryEntry(QueryEntryDataView),
}

impl View for Lib3hToClient {
    type V = Lib3hToClientView;

    open spec fn view(&self) -> Lib3hToClientView {
        match self {
            Lib3hToClient::HandleSendDirectMessage(d) =>
                Lib3hToClientView::HandleSendDirectMessage(d@),
            Lib3hToClient::SendDirectMessageResult(d) =>
                Lib3hToClientView::SendDirectMessageResult(d@),
            Lib3hToClient::HandleGetAuthoringEntryList(d) =>
                Lib3hToClientView::HandleGetAuthoringEntryList(d@),
            Lib3hToClient::HandleGetGossipingEntryList(d) =>
                Lib3hToClientView::HandleGetGossipingEntryList(d@),
            Lib3hToClient::HandleFetchEntry(d) => Lib3hToClientView::HandleFetchEntry(d@),
            Lib3hToClient::HandleStoreEntryAspect(d) =>
                Lib3hToClientView::HandleStoreEntryAspect(d@),
            Lib3hToClient::HandleQueryEntry(d) => Lib3hToClientView::HandleQueryEntry(d@),
        }
    }
}

impl Lib3hToClient {
    /// A copy of the value.
    pub fn duplicate(&self) -> (r: Self)
        ensures
            r@ == self@,
    {
        match self {
            Lib3hToClient::HandleSendDirectMessage(d) =>
                Lib3hToClient::HandleSendDirectMessage(d.duplicate()),
            Lib3hToClient::SendDirectMessageResult(d) =>
                Lib3hToClient::SendDirectMessageResult(d.duplicate()),
            Lib3hToClient::HandleGetAuthoringEntryList(d) =>
                Lib3hToClient::HandleGetAuthoringEntryList(d.duplicate()),
            Lib3hToClient::HandleGetGossipingEntryList(d) =>
                Lib3hToClient::HandleGetGossipingEntryList(d.duplicate()),
            Lib3hToClient::HandleFetchEntry(d) => Lib3hToClient::HandleFetchEntry(d.duplicate()),
            Lib3hToClient::HandleStoreEntryAspect(d) =>
                Lib3hToClient::HandleStoreEntryAspect(d.duplicate()),
            Lib3hToClient::HandleQueryEntry(d) => Lib3hToClient::HandleQueryEntry(d.duplicate()),
        }
    }
}

/// What a client answers the switchboard.
#[derive(Clone, Debug, PartialEq, Eq)]
pub enum Lib3hToClientResponse {
    /// The answer to a delivered message.
    HandleSendDirectMessageResult(DirectMessageData),
    /// What the agent has authored.
    HandleGetAuthoringEntryListResult(EntryListData),
    /// What the agent holds.
    HandleGetGossipingEntryListResult(EntryListData),
    /// An entry that was asked for.
    HandleFetchEntryResult(FetchEntryResultData),
    /// The answer to a query.
    HandleQueryEntryResult(QueryEntryResultData),
    /// Acknowledges an aspect; the switchboard has no use for it.
    HandleStoreEntryAspectResult,
}

/// The model of a `Lib3hToClientResponse`.
pub enum Lib3hToClientResponseView {
    HandleSendDirectMessageResult(DirectMessageDataView),
    HandleGetAuthoringEntryListResult(EntryListDataView),
    HandleGetGossipingEntryListResult(EntryListDataView),
    HandleFetchEntryResult(FetchEntryResultDataView),
    HandleQueryEntryResult(QueryEntryResultDataView),
    HandleStoreEntryAspectResult,
}

impl View for Lib3hToClientResponse {
    type V = Lib3hToClientResponseView;

    open spec fn view(&self) -> Lib3hToClientResponseView {
        match self {
            Lib3hToClientResponse::HandleSendDirectMessageResult(d) =>
                Lib3hToClientResponseView::HandleSendDirectMessageResult(d@),
            Lib3hToClientResponse::HandleGetAuthoringEntryListResult(d) =>
                Lib3hToClientResponseView::HandleGetAuthoringEntryListResult(d@),
            Lib3hToClientResponse::HandleGetGossipingEntryListResult(d) =>
                Lib3hToClientResponseView::HandleGetGossipingEntryListResult(d@),
            Lib3hToClientResponse::HandleFetchEntryResult(d) =>
                Lib3hToClientResponseView::HandleFetchEntryResult(d@),
            Lib3hToClientResponse::HandleQueryEntryResult(d) =>
                Lib3hToClientResponseView::HandleQueryEntryResult(d@),
            Lib3hToClientResponse::HandleStoreEntryAspectResult =>
                Lib3hToClientResponseView::HandleStoreEntryAspectResult,
        }
    }
}

impl Lib3hToClientResponse {
    /// A copy of the value.
    pub fn duplicate(&self) -> (r: Self)
        ensures
            r@ == self@,
    {
        match self {
            Lib3hToClientResponse::HandleSendDirectMessageResult(d) =>
                Lib3hToClientResponse::HandleSendDirectMessageResult(d.duplicate()),
            Lib3hToClientResponse::HandleGetAuthoringEntryListResult(d) =>
                Lib3hToClientResponse::HandleGetAuthoringEntryListResult(d.duplicate()),
            Lib3hToClientResponse::HandleGetGossipingEntryListResult(d) =>
                Lib3hToClientResponse::HandleGetGossipingEntryListResult(d.duplicate()),
            Lib3hToClientResponse::HandleFetchEntryResult(d) =>
                Lib3hToClientResponse::HandleFetchEntryResult(d.duplicate()),
            Lib3hToClientResponse::HandleQueryEntryResult(d) =>
                Lib3hToClientResponse::HandleQueryEntryResult(d.duplicate()),
            Lib3hToClientResponse::HandleStoreEntryAspectResult =>
                Lib3hToClientResponse::HandleStoreEntryAspectResult,
        }
    }
}

} // verus!
