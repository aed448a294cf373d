use sim2h::connection_state::ConnectionState;
use sim2h::dht::DhtAlgorithm;
use sim2h::error::Sim2hError;
use sim2h::message_log::{Direction, MessageLogEntry};
use sim2h::protocol::{
    ClientToLib3h, ClientToLib3hResponse, DirectMessageData, EntryAspectData, EntryData,
    EntryListData, FetchEntryData, FetchEntryResultData, GetListData, Lib3hToClient,
    Lib3hToClientResponse, ProvidedEntryData, QueryEntryData, QueryEntryResultData, SpaceData,
    StoreEntryAspectData,
};
use sim2h::switchboard::{Sim2h, Sim2hState};
use sim2h::websocket::{WsFrame, WssCommand, WssEvent};
use sim2h::wire_message::{StatusData, WireError, WireMessage, WIRE_VERSION};

fn s(x: &str) -> String {
    x.to_string()
}

fn connect(sb: &mut Sim2h, uri: &str) {
    sb.enqueue(WssEvent::IncomingConnection(s(uri)));
}

fn receive(sb: &mut Sim2h, uri: &str, signer: &str, message: WireMessage) {
    sb.enqueue(WssEvent::ReceivedData(s(uri), WsFrame::Message(s(signer), message)));
}

fn join_space(space: &str, agent: &str, location: u32) -> WireMessage {
    WireMessage::ClientToLib3h(ClientToLib3h::JoinSpace(SpaceData {
        request_id: s(""),
        space_address: s(space),
        agent_id: s(agent),
        agent_location: location,
    }))
}

fn leave_space(space: &str, agent: &str) -> WireMessage {
    WireMessage::ClientToLib3h(ClientToLib3h::LeaveSpace(SpaceData {
        request_id: s(""),
        space_address: s(space),
        agent_id: s(agent),
        agent_location: 0,
    }))
}

fn direct(space: &str, from: &str, to: &str) -> DirectMessageData {
    DirectMessageData {
        space_address: s(space),
        request_id: s("dm"),
        to_agent_id: s(to),
        from_agent_id: s(from),
        content: vec![1, 2, 3],
    }
}

fn aspect(address: &str) -> EntryAspectData {
    EntryAspectData {
        aspect_address: s(address),
        type_hint: s("hint"),
        aspect: address.as_bytes().to_vec(),
        publish_ts: 7,
    }
}

fn entry(address: &str, location: u32, aspects: &[&str]) -> EntryData {
    EntryData {
        entry_address: s(address),
        entry_location: location,
        aspect_list: aspects.iter().map(|a| aspect(a)).collect(),
    }
}

fn publish(space: &str, provider: &str, e: EntryData) -> WireMessage {
    WireMessage::ClientToLib3h(ClientToLib3h::PublishEntry(ProvidedEntryData {
        space_address: s(space),
        provider_agent_id: s(provider),
        entry: e,
    }))
}

fn list(space: &str, provider: &str, pairs: &[(&str, &[&str])]) -> EntryListData {
    EntryListData {
        space_address: s(space),
        provider_agent_id: s(provider),
        request_id: s(""),
        address_map: pairs
            .iter()
            .map(|(e, xs)| (s(e), xs.iter().map(|x| s(x)).collect()))
            .collect(),
    }
}

fn gossiping_result(space: &str, provider: &str, pairs: &[(&str, &[&str])]) -> WireMessage {
    WireMessage::Lib3hToClientResponse(Lib3hToClientResponse::HandleGetGossipingEntryListResult(
        list(space, provider, pairs),
    ))
}

fn authoring_result(space: &str, provider: &str, pairs: &[(&str, &[&str])]) -> WireMessage {
    WireMessage::Lib3hToClientResponse(Lib3hToClientResponse::HandleGetAuthoringEntryListResult(
        list(space, provider, pairs),
    ))
}

fn fetch_result(space: &str, provider: &str, request_id: &str, e: EntryData) -> WireMessage {
    WireMessage::Lib3hToClientResponse(Lib3hToClientResponse::HandleFetchEntryResult(
        FetchEntryResultData {
            space_address: s(space),
            provider_agent_id: s(provider),
            request_id: s(request_id),
            entry: e,
        },
    ))
}

fn query(space: &str, requester: &str, entry: &str, location: u32) -> QueryEntryData {
    QueryEntryData {
        space_address: s(space),
        entry_address: s(entry),
        entry_location: location,
        request_id: s("q"),
        requester_agent_id: s(requester),
        query: vec![9],
    }
}

fn authoring_request(space: &str, agent: &str) -> WireMessage {
    WireMessage::Lib3hToClient(Lib3hToClient::HandleGetAuthoringEntryList(GetListData {
        space_address: s(space),
        provider_agent_id: s(agent),
        request_id: s(""),
    }))
}

fn gossiping_request(space: &str, agent: &str) -> WireMessage {
    WireMessage::Lib3hToClient(Lib3hToClient::HandleGetGossipingEntryList(GetListData {
        space_address: s(space),
        provider_agent_id: s(agent),
        request_id: s(""),
    }))
}

fn store(space: &str, provider: &str, entry: &str, a: &str) -> WireMessage {
    WireMessage::Lib3hToClient(Lib3hToClient::HandleStoreEntryAspect(StoreEntryAspectData {
        request_id: s(""),
        space_address: s(space),
        provider_agent_id: s(provider),
        entry_address: s(entry),
        entry_aspect: aspect(a),
    }))
}

fn send(uri: &str, message: WireMessage) -> WssCommand {
    WssCommand::SendMessage(s(uri), message)
}

/// A switchboard at time 0 whose first retry round has passed.
fn switchboard(seed: u64) -> Sim2h {
    let mut sb = Sim2h::new(seed, 0);
    assert!(sb.process(0).is_ok());
    sb
}

/// Agents A1, A2, A3 at u1, u2, u3 in space S1, with the requests that the
/// joins cause taken out of the outbox.
fn three_agents(seed: u64, locations: [u32; 3]) -> Sim2h {
    let mut sb = switchboard(seed);
    for (i, location) in locations.iter().enumerate() {
        let uri = format!("u{}", i + 1);
        let agent = format!("A{}", i + 1);
        connect(&mut sb, &uri);
        receive(&mut sb, &uri, &agent, join_space("S1", &agent, *location));
    }
    assert!(sb.process(1).is_ok());
    let _ = sb.take_commands();
    assert_eq!(sb.take_reports(), vec![]);
    sb
}

#[test]
fn new_state_is_empty() {
    let state = Sim2hState::new();
    assert_eq!(state.connections.len(), 0);
    assert_eq!(state.spaces.len(), 0);
}

#[test]
fn new_switchboard_is_in_full_sync_and_idle() {
    let mut sb = Sim2h::new(1, 0);
    assert_eq!(sb.dht_algorithm(), DhtAlgorithm::FullSync);
    assert_eq!(sb.pending_events(), 0);
    assert!(sb.bound_uri.is_none());
    assert_eq!(sb.take_commands(), vec![]);
    assert_eq!(sb.take_reports(), vec![]);
}

#[test]
fn set_dht_algorithm_changes_the_policy() {
    let mut sb = Sim2h::new(1, 0);
    sb.set_dht_algorithm(DhtAlgorithm::NaiveSharding { redundant_count: 3 });
    assert_eq!(sb.dht_algorithm(), DhtAlgorithm::NaiveSharding { redundant_count: 3 });
}

#[test]
fn incoming_connection_starts_in_limbo() {
    let mut sb = switchboard(1);
    connect(&mut sb, "u1");
    assert!(sb.get_connection(&s("u1")).is_none());
    assert!(sb.process(1).is_ok());
    assert_eq!(sb.get_connection(&s("u1")), Some(ConnectionState::Limbo(vec![])));
    assert!(sb.is_open(&s("u1")));
    assert!(!sb.is_open(&s("u2")));
}

#[test]
fn happy_join() {
    let mut sb = switchboard(1);
    connect(&mut sb, "u1");
    receive(&mut sb, "u1", "A1", join_space("S1", "A1", 10));
    assert!(sb.process(1).is_ok());
    assert_eq!(sb.get_connection(&s("u1")), Some(ConnectionState::Joined(s("S1"), s("A1"))));
    assert_eq!(
        sb.take_commands(),
        vec![send("u1", authoring_request("S1", "A1")), send("u1", gossiping_request("S1", "A1"))]
    );
    assert_eq!(sb.take_reports(), vec![]);
    let space = sb.get_space(&s("S1")).unwrap();
    assert_eq!(space.agent_id_to_uri(&s("A1")), Some(s("u1")));
    assert_eq!(space.all_agents().get(&s("A1")).unwrap().location, 10);
}

#[test]
fn join_signed_by_another_agent_is_turned_down() {
    let mut sb = switchboard(1);
    connect(&mut sb, "u1");
    receive(&mut sb, "u1", "A2", join_space("S1", "A1", 10));
    assert!(sb.process(1).is_ok());
    assert_eq!(sb.take_reports(), vec![Sim2hError::SignerMismatch]);
    assert_eq!(sb.get_connection(&s("u1")), Some(ConnectionState::Limbo(vec![])));
    assert!(sb.get_space(&s("S1")).is_none());
    assert_eq!(sb.take_commands(), vec![]);
}

#[test]
fn limbo_replay() {
    let mut sb = switchboard(1);
    connect(&mut sb, "u1");
    let dm = WireMessage::ClientToLib3h(ClientToLib3h::SendDirectMessage(direct("S1", "A1", "A2")));
    receive(&mut sb, "u1", "A1", dm.clone());
    assert!(sb.process(1).is_ok());
    assert_eq!(
        sb.take_commands(),
        vec![send("u1", WireMessage::Error(WireError::MessageWhileInLimbo))]
    );
    assert_eq!(sb.get_connection(&s("u1")), Some(ConnectionState::Limbo(vec![dm])));
    assert!(sb.get_space(&s("S1")).is_none());
    assert_eq!(sb.take_reports(), vec![]);

    receive(&mut sb, "u1", "A1", join_space("S1", "A1", 10));
    assert!(sb.process(2).is_ok());
    assert_eq!(sb.get_connection(&s("u1")), Some(ConnectionState::Joined(s("S1"), s("A1"))));
    assert_eq!(sb.take_reports(), vec![Sim2hError::UnvalidatedProxyAgent]);
    assert_eq!(
        sb.take_commands(),
        vec![send("u1", authoring_request("S1", "A1")), send("u1", gossiping_request("S1", "A1"))]
    );
}

#[test]
fn limbo_messages_are_replayed_in_order_of_arrival() {
    let mut sb = switchboard(1);
    connect(&mut sb, "u2");
    receive(&mut sb, "u2", "A2", join_space("S1", "A2", 20));
    connect(&mut sb, "u1");
    let mut first = direct("S1", "A1", "A2");
    first.content = vec![1];
    let mut second = direct("S1", "A1", "A2");
    second.content = vec![2];
    receive(
        &mut sb,
        "u1",
        "A1",
        WireMessage::ClientToLib3h(ClientToLib3h::SendDirectMessage(first.clone())),
    );
    receive(
        &mut sb,
        "u1",
        "A1",
        WireMessage::ClientToLib3h(ClientToLib3h::SendDirectMessage(second.clone())),
    );
    receive(&mut sb, "u1", "A1", join_space("S1", "A1", 10));
    let mut third = direct("S1", "A1", "A2");
    third.content = vec![3];
    receive(
        &mut sb,
        "u1",
        "A1",
        WireMessage::ClientToLib3h(ClientToLib3h::SendDirectMessage(third.clone())),
    );
    assert!(sb.process(1).is_ok());
    let forwarded: Vec<WssCommand> = sb
        .take_commands()
        .into_iter()
        .filter(|c| matches!(c, WssCommand::SendMessage(u, _) if u == "u2"))
        .collect();
    assert_eq!(
        forwarded,
        vec![
            send("u2", authoring_request("S1", "A2")),
            send("u2", gossiping_request("S1", "A2")),
            send("u2", WireMessage::Lib3hToClient(Lib3hToClient::HandleSendDirectMessage(first))),
            send("u2", WireMessage::Lib3hToClient(Lib3hToClient::HandleSendDirectMessage(second))),
            send("u2", WireMessage::Lib3hToClient(Lib3hToClient::HandleSendDirectMessage(third))),
        ]
    );
}

#[test]
fn publish_under_full_sync() {
    let mut sb = three_agents(1, [10, 20, 30]);
    receive(&mut sb, "u1", "A1", publish("S1", "A1", entry("E1", 100, &["AS1", "AS2"])));
    assert!(sb.process(2).is_ok());
    assert_eq!(
        sb.take_commands(),
        vec![
            send("u2", store("S1", "A1", "E1", "AS1")),
            send("u3", store("S1", "A1", "E1", "AS1")),
            send("u2", store("S1", "A1", "E1", "AS2")),
            send("u3", store("S1", "A1", "E1", "AS2")),
        ]
    );
    let space = sb.get_space(&s("S1")).unwrap();
    assert_eq!(
        space.all_aspects().to_pairs(),
        vec![(s("E1"), vec![s("AS1"), s("AS2")])]
    );
    assert_eq!(space.entry_location(&s("E1")), Some(100));
    assert_eq!(sb.take_reports(), vec![]);
}

#[test]
fn publish_for_another_space_is_a_mismatch() {
    let mut sb = three_agents(1, [10, 20, 30]);
    receive(&mut sb, "u1", "A1", publish("S2", "A1", entry("E1", 100, &["AS1"])));
    receive(&mut sb, "u1", "A1", publish("S1", "A2", entry("E1", 100, &["AS1"])));
    assert!(sb.process(2).is_ok());
    assert_eq!(sb.take_reports(), vec![Sim2hError::SpaceMismatch, Sim2hError::SpaceMismatch]);
    assert_eq!(sb.take_commands(), vec![]);
    assert_eq!(sb.get_space(&s("S1")).unwrap().all_aspects().len(), 0);
}

/// Sharding with factor 2 in which the entry E1 at 100 is held by A3 (at
/// 105) and A1 (at 90), and not by A2 (at 5000); E1 is known with AS1, AS2.
fn sharded() -> Sim2h {
    let mut sb = three_agents(3, [90, 5000, 105]);
    sb.set_dht_algorithm(DhtAlgorithm::NaiveSharding { redundant_count: 2 });
    receive(&mut sb, "u1", "A1", publish("S1", "A1", entry("E1", 100, &["AS1", "AS2"])));
    assert!(sb.process(2).is_ok());
    assert_eq!(
        sb.take_commands(),
        vec![
            send("u3", store("S1", "A1", "E1", "AS1")),
            send("u1", store("S1", "A1", "E1", "AS1")),
            send("u3", store("S1", "A1", "E1", "AS2")),
            send("u1", store("S1", "A1", "E1", "AS2")),
        ]
    );
    sb
}

fn fetch_for(space: &str, provider: &str, entry: &str, aspects: &[&str], id: &str) -> WireMessage {
    WireMessage::Lib3hToClient(Lib3hToClient::HandleFetchEntry(FetchEntryData {
        space_address: s(space),
        entry_address: s(entry),
        request_id: s(id),
        provider_agent_id: s(provider),
        aspect_address_list: Some(aspects.iter().map(|a| s(a)).collect()),
    }))
}

#[test]
fn gossip_diff_under_naive_sharding() {
    let mut sb = sharded();
    receive(&mut sb, "u3", "A3", gossiping_result("S1", "A3", &[("E1", &["AS1"])]));
    assert!(sb.process(3).is_ok());
    assert_eq!(sb.take_reports(), vec![]);
    let space = sb.get_space(&s("S1")).unwrap();
    assert!(space.agent_is_missing_all_aspects(&s("A3"), &s("E1"), &vec![s("AS2")]));
    assert!(!space.agent_is_missing_all_aspects(&s("A3"), &s("E1"), &vec![s("AS1")]));
    assert_eq!(space.agents_with_missing_aspects(), vec![s("A3")]);
    assert_eq!(sb.take_commands(), vec![send("u1", fetch_for("S1", "A1", "E1", &["AS2"], "A3"))]);
}

#[test]
fn agent_outside_the_shard_lacks_nothing() {
    let mut sb = sharded();
    receive(&mut sb, "u2", "A2", gossiping_result("S1", "A2", &[]));
    assert!(sb.process(3).is_ok());
    assert_eq!(sb.take_commands(), vec![]);
    assert_eq!(sb.get_space(&s("S1")).unwrap().agents_with_missing_aspects(), Vec::<String>::new());
}

#[test]
fn fetch_then_store() {
    let mut sb = sharded();
    receive(&mut sb, "u3", "A3", gossiping_result("S1", "A3", &[("E1", &["AS1"])]));
    assert!(sb.process(3).is_ok());
    let _ = sb.take_commands();
    receive(&mut sb, "u1", "A1", fetch_result("S1", "A1", "A3", entry("E1", 100, &["AS2"])));
    assert!(sb.process(4).is_ok());
    assert_eq!(sb.take_reports(), vec![]);
    let space = sb.get_space(&s("S1")).unwrap();
    assert!(!space.agent_is_missing_all_aspects(&s("A3"), &s("E1"), &vec![s("AS2")]));
    assert!(!space.agent_is_missing_some_aspect_for_entry(&s("A3"), &s("E1")));
    assert_eq!(space.agents_with_missing_aspects(), Vec::<String>::new());
    assert_eq!(sb.take_commands(), vec![send("u3", store("S1", "A1", "E1", "AS2"))]);
}

#[test]
fn fetch_result_for_an_agent_that_left_is_dropped() {
    let mut sb = sharded();
    receive(&mut sb, "u1", "A1", fetch_result("S1", "A1", "A9", entry("E1", 100, &["AS2"])));
    assert!(sb.process(4).is_ok());
    assert_eq!(sb.take_commands(), vec![]);
    assert_eq!(sb.take_reports(), vec![]);
}

#[test]
fn retry_tick() {
    let mut sb = sharded();
    receive(&mut sb, "u3", "A3", gossiping_result("S1", "A3", &[("E1", &["AS1"])]));
    assert!(sb.process(3).is_ok());
    let _ = sb.take_commands();
    assert!(sb.process(9_999).is_ok());
    assert_eq!(sb.take_commands(), vec![]);
    assert!(sb.process(10_000).is_ok());
    assert_eq!(sb.take_commands(), vec![send("u3", gossiping_request("S1", "A3"))]);
    assert!(sb.process(10_001).is_ok());
    assert_eq!(sb.take_commands(), vec![]);
    assert!(sb.process(20_000).is_ok());
    assert_eq!(sb.take_commands(), vec![send("u3", gossiping_request("S1", "A3"))]);
}

#[test]
fn retry_deadline_does_not_overflow() {
    let mut sb = Sim2h::new(1, 0);
    assert!(sb.process(u64::MAX - 5).is_ok());
    assert!(sb.process(u64::MAX - 1).is_ok());
    assert!(sb.process(u64::MAX).is_ok());
}

#[test]
fn authoring_list_asks_for_what_is_unseen() {
    let mut sb = three_agents(1, [10, 20, 30]);
    receive(&mut sb, "u1", "A1", publish("S1", "A1", entry("E1", 100, &["AS1"])));
    assert!(sb.process(2).is_ok());
    let _ = sb.take_commands();
    receive(
        &mut sb,
        "u2",
        "A2",
        authoring_result("S1", "A2", &[("E1", &["AS1", "AS2"]), ("E2", &["AS3"])]),
    );
    assert!(sb.process(3).is_ok());
    assert_eq!(
        sb.take_commands(),
        vec![
            send("u2", fetch_for("S1", "A2", "E1", &["AS2"], "")),
            send("u2", fetch_for("S1", "A2", "E2", &["AS3"], "")),
        ]
    );
    assert_eq!(sb.get_space(&s("S1")).unwrap().agents_with_missing_aspects(), Vec::<String>::new());
}

#[test]
fn authored_fetch_result_is_taken_in_as_new() {
    let mut sb = three_agents(1, [10, 20, 30]);
    receive(&mut sb, "u2", "A2", fetch_result("S1", "A2", "", entry("E2", 7, &["AS3"])));
    assert!(sb.process(2).is_ok());
    assert_eq!(
        sb.take_commands(),
        vec![send("u1", store("S1", "A2", "E2", "AS3")), send("u3", store("S1", "A2", "E2", "AS3"))]
    );
    assert!(sb.get_space(&s("S1")).unwrap().all_aspects().contains(&s("E2"), &s("AS3")));
}

#[test]
fn gossip_under_full_sync_fetches_from_another_agent() {
    let mut sb = three_agents(5, [10, 20, 30]);
    receive(&mut sb, "u1", "A1", publish("S1", "A1", entry("E1", 100, &["AS1", "AS2"])));
    assert!(sb.process(2).is_ok());
    let _ = sb.take_commands();
    receive(&mut sb, "u3", "A3", gossiping_result("S1", "A3", &[("E1", &["AS1"])]));
    assert!(sb.process(3).is_ok());
    let commands = sb.take_commands();
    assert_eq!(commands.len(), 1);
    let to_a1 = send("u1", fetch_for("S1", "A1", "E1", &["AS2"], "A3"));
    let to_a2 = send("u2", fetch_for("S1", "A2", "E1", &["AS2"], "A3"));
    assert!(commands[0] == to_a1 || commands[0] == to_a2);
    let space = sb.get_space(&s("S1")).unwrap();
    assert!(space.agent_is_missing_all_aspects(&s("A3"), &s("E1"), &vec![s("AS2")]));
}

#[test]
fn fetch_skips_agents_that_lack_the_same_aspects() {
    for seed in 0..20 {
        let mut sb = three_agents(seed, [10, 20, 30]);
        receive(&mut sb, "u1", "A1", publish("S1", "A1", entry("E1", 100, &["AS1", "AS2"])));
        receive(&mut sb, "u2", "A2", gossiping_result("S1", "A2", &[("E1", &["AS1"])]));
        assert!(sb.process(2).is_ok());
        let _ = sb.take_commands();
        receive(&mut sb, "u3", "A3", gossiping_result("S1", "A3", &[("E1", &["AS1"])]));
        assert!(sb.process(3).is_ok());
        assert_eq!(
            sb.take_commands(),
            vec![send("u1", fetch_for("S1", "A1", "E1", &["AS2"], "A3"))]
        );
    }
}

#[test]
fn lone_agent_has_nobody_to_fetch_from() {
    let mut sb = switchboard(1);
    connect(&mut sb, "u1");
    receive(&mut sb, "u1", "A1", join_space("S1", "A1", 10));
    receive(&mut sb, "u1", "A1", publish("S1", "A1", entry("E1", 100, &["AS1"])));
    receive(&mut sb, "u1", "A1", gossiping_result("S1", "A1", &[]));
    assert!(sb.process(1).is_ok());
    assert_eq!(
        sb.take_commands(),
        vec![send("u1", authoring_request("S1", "A1")), send("u1", gossiping_request("S1", "A1"))]
    );
    assert_eq!(sb.get_space(&s("S1")).unwrap().agents_with_missing_aspects(), vec![s("A1")]);
}

#[test]
fn direct_message_is_proxied() {
    let mut sb = three_agents(1, [10, 20, 30]);
    let dm = direct("S1", "A1", "A2");
    receive(
        &mut sb,
        "u1",
        "A1",
        WireMessage::ClientToLib3h(ClientToLib3h::SendDirectMessage(dm.clone())),
    );
    let answer = direct("S1", "A2", "A1");
    receive(
        &mut sb,
        "u2",
        "A2",
        WireMessage::Lib3hToClientResponse(Lib3hToClientResponse::HandleSendDirectMessageResult(
            answer.clone(),
        )),
    );
    assert!(sb.process(2).is_ok());
    assert_eq!(
        sb.take_commands(),
        vec![
            send("u2", WireMessage::Lib3hToClient(Lib3hToClient::HandleSendDirectMessage(dm))),
            send("u1", WireMessage::Lib3hToClient(Lib3hToClient::SendDirectMessageResult(answer))),
        ]
    );
}

#[test]
fn direct_message_from_another_agent_is_a_mismatch() {
    let mut sb = three_agents(1, [10, 20, 30]);
    receive(
        &mut sb,
        "u1",
        "A1",
        WireMessage::ClientToLib3h(ClientToLib3h::SendDirectMessage(direct("S1", "A2", "A3"))),
    );
    assert!(sb.process(2).is_ok());
    assert_eq!(sb.take_reports(), vec![Sim2hError::SpaceMismatch]);
    assert_eq!(sb.take_commands(), vec![]);
}

#[test]
fn message_signed_by_another_agent_is_turned_down() {
    let mut sb = three_agents(1, [10, 20, 30]);
    receive(
        &mut sb,
        "u1",
        "A2",
        WireMessage::ClientToLib3h(ClientToLib3h::SendDirectMessage(direct("S1", "A1", "A2"))),
    );
    assert!(sb.process(2).is_ok());
    assert_eq!(sb.take_reports(), vec![Sim2hError::SignerMismatch]);
    assert_eq!(sb.take_commands(), vec![]);
}

#[test]
fn message_without_connection_is_reported() {
    let mut sb = switchboard(1);
    receive(&mut sb, "u9", "A1", leave_space("S1", "A1"));
    assert!(sb.process(1).is_ok());
    assert_eq!(sb.take_reports(), vec![Sim2hError::NoConnection]);
}

#[test]
fn second_join_on_a_joined_connection_is_turned_down() {
    let mut sb = three_agents(1, [10, 20, 30]);
    receive(&mut sb, "u1", "A1", join_space("S1", "A1", 10));
    receive(&mut sb, "u1", "A1", WireMessage::ClientToLib3h(ClientToLib3h::Bootstrap));
    receive(&mut sb, "u1", "A1", WireMessage::Pong);
    assert!(sb.process(2).is_ok());
    assert_eq!(
        sb.take_reports(),
        vec![Sim2hError::JoinNotProxied, Sim2hError::NotImplemented, Sim2hError::NotImplemented]
    );
}

#[test]
fn join_from_an_address_of_another_agent_is_turned_down() {
    let mut sb = three_agents(1, [10, 20, 30]);
    connect(&mut sb, "u1");
    let waiting = WireMessage::ClientToLib3h(ClientToLib3h::Bootstrap);
    receive(&mut sb, "u1", "A4", waiting.clone());
    receive(&mut sb, "u1", "A4", join_space("S1", "A4", 40));
    assert!(sb.process(2).is_ok());
    assert_eq!(sb.take_reports(), vec![Sim2hError::UriClaimed]);
    assert_eq!(
        sb.take_commands(),
        vec![send("u1", WireMessage::Error(WireError::MessageWhileInLimbo))]
    );
    assert_eq!(sb.get_connection(&s("u1")), Some(ConnectionState::Limbo(vec![waiting])));
    let space = sb.get_space(&s("S1")).unwrap();
    assert_eq!(space.agent_id_to_uri(&s("A4")), None);
    assert_eq!(space.agent_id_to_uri(&s("A1")), Some(s("u1")));
    assert_eq!(space.all_agents().len(), 3);
}

#[test]
fn rejected_join_leaves_the_connection_in_limbo() {
    let mut sb = switchboard(1);
    connect(&mut sb, "u1");
    receive(&mut sb, "u1", "A1", join_space("S1", "A1", 10));
    connect(&mut sb, "u1");
    assert!(sb.process(1).is_ok());
    let _ = sb.take_commands();
    let r = sb.handle_message(&s("u1"), join_space("S1", "A2", 20), &s("A2"));
    assert_eq!(r, Err(Sim2hError::UriClaimed));
    assert_eq!(sb.get_connection(&s("u1")), Some(ConnectionState::Limbo(vec![])));
    let space = sb.get_space(&s("S1")).unwrap();
    assert_eq!(space.agent_id_to_uri(&s("A2")), None);
    assert_eq!(space.agent_id_to_uri(&s("A1")), Some(s("u1")));
    assert_eq!(sb.take_commands(), vec![]);
    assert!(sb.get_space(&s("S2")).is_none());
    let r = sb.handle_message(&s("u1"), join_space("S2", "A2", 20), &s("A2"));
    assert_eq!(r, Ok(()));
    assert_eq!(sb.get_connection(&s("u1")), Some(ConnectionState::Joined(s("S2"), s("A2"))));
    assert_eq!(sb.get_space(&s("S2")).unwrap().agent_id_to_uri(&s("A2")), Some(s("u1")));
}

#[test]
fn state_can_be_cloned() {
    let mut state = Sim2hState::new();
    let _ = state.connections.insert(s("u1"), ConnectionState::new());
    let copy = state.clone();
    let _ = state.connections.insert(s("u2"), ConnectionState::new());
    assert_eq!(copy.connections.len(), 1);
    assert_eq!(state.connections.len(), 2);
    assert_eq!(copy.spaces.len(), 0);
}

#[test]
fn leave_removes_the_agent_and_closes() {
    let mut sb = three_agents(1, [10, 20, 30]);
    receive(&mut sb, "u1", "A1", leave_space("S1", "A2"));
    assert!(sb.process(2).is_ok());
    assert_eq!(sb.take_reports(), vec![Sim2hError::SpaceMismatch]);
    assert_eq!(sb.take_commands(), vec![]);
    receive(&mut sb, "u1", "A1", leave_space("S1", "A1"));
    assert!(sb.process(3).is_ok());
    assert_eq!(sb.take_commands(), vec![WssCommand::CloseConnection(s("u1"))]);
    assert!(sb.get_connection(&s("u1")).is_none());
    assert!(!sb.is_open(&s("u1")));
    let space = sb.get_space(&s("S1")).unwrap();
    assert_eq!(space.agent_id_to_uri(&s("A1")), None);
    assert_eq!(space.all_agents().len(), 2);
}

#[test]
fn last_agent_takes_the_space_with_it() {
    let mut sb = switchboard(1);
    connect(&mut sb, "u1");
    receive(&mut sb, "u1", "A1", join_space("S1", "A1", 10));
    assert!(sb.process(1).is_ok());
    assert!(sb.get_space(&s("S1")).is_some());
    sb.enqueue(WssEvent::Error(s("u1"), s("connection reset")));
    assert!(sb.process(2).is_ok());
    assert!(sb.get_space(&s("S1")).is_none());
    assert!(sb.get_connection(&s("u1")).is_none());
}

#[test]
fn text_and_close_frames_end_the_connection() {
    let mut sb = three_agents(1, [10, 20, 30]);
    sb.enqueue(WssEvent::ReceivedData(s("u1"), WsFrame::Text(s("hello"))));
    sb.enqueue(WssEvent::ReceivedData(s("u2"), WsFrame::Close));
    sb.enqueue(WssEvent::ReceivedData(s("u3"), WsFrame::Ping));
    sb.enqueue(WssEvent::ReceivedData(s("u3"), WsFrame::Pong));
    assert!(sb.process(2).is_ok());
    assert_eq!(
        sb.take_commands(),
        vec![WssCommand::CloseConnection(s("u1")), WssCommand::CloseConnection(s("u2"))]
    );
    assert!(sb.get_connection(&s("u1")).is_none());
    assert!(sb.get_connection(&s("u2")).is_none());
    assert_eq!(sb.get_connection(&s("u3")), Some(ConnectionState::Joined(s("S1"), s("A3"))));
    assert_eq!(sb.get_space(&s("S1")).unwrap().all_agents().len(), 1);
}

#[test]
fn rejected_frame_is_reported_and_the_connection_survives() {
    let mut sb = three_agents(1, [10, 20, 30]);
    sb.enqueue(WssEvent::ReceivedData(s("u1"), WsFrame::Rejected));
    assert!(sb.process(2).is_ok());
    assert_eq!(sb.take_reports(), vec![Sim2hError::VerifyFailed]);
    assert_eq!(sb.take_commands(), vec![]);
    assert_eq!(sb.get_connection(&s("u1")), Some(ConnectionState::Joined(s("S1"), s("A1"))));
}

#[test]
fn ping_and_status_are_answered_in_any_state() {
    let mut sb = three_agents(1, [10, 20, 30]);
    sb.set_dht_algorithm(DhtAlgorithm::NaiveSharding { redundant_count: 5 });
    connect(&mut sb, "u4");
    receive(&mut sb, "u4", "A4", WireMessage::Ping);
    receive(&mut sb, "u4", "A4", WireMessage::Status);
    receive(&mut sb, "u1", "A1", WireMessage::Ping);
    assert!(sb.process(2).is_ok());
    assert_eq!(
        sb.take_commands(),
        vec![
            send("u4", WireMessage::Pong),
            send(
                "u4",
                WireMessage::StatusResponse(StatusData {
                    spaces: 1,
                    connections: 4,
                    redundant_count: 5,
                    version: WIRE_VERSION,
                })
            ),
            send("u1", WireMessage::Pong),
        ]
    );
    assert_eq!(sb.get_connection(&s("u4")), Some(ConnectionState::Limbo(vec![])));
}

#[test]
fn status_under_full_sync_reports_no_redundancy() {
    let mut sb = switchboard(1);
    connect(&mut sb, "u1");
    receive(&mut sb, "u1", "A1", WireMessage::Status);
    assert!(sb.process(1).is_ok());
    assert_eq!(
        sb.take_commands(),
        vec![send(
            "u1",
            WireMessage::StatusResponse(StatusData {
                spaces: 0,
                connections: 1,
                redundant_count: 0,
                version: WIRE_VERSION,
            })
        )]
    );
}

#[test]
fn send_without_route_is_dropped() {
    let mut sb = switchboard(1);
    receive(&mut sb, "u9", "A1", WireMessage::Ping);
    assert!(sb.process(1).is_ok());
    assert_eq!(sb.take_commands(), vec![]);
    assert_eq!(sb.take_reports(), vec![Sim2hError::NoRoute]);
    assert_eq!(sb.take_message_log(), vec![]);
}

#[test]
fn messages_are_logged_but_for_pings_and_pongs() {
    let mut sb = switchboard(1);
    connect(&mut sb, "u1");
    receive(&mut sb, "u1", "A1", WireMessage::Ping);
    receive(&mut sb, "u1", "A1", WireMessage::Status);
    receive(&mut sb, "u1", "A1", join_space("S1", "A1", 10));
    receive(&mut sb, "u1", "A1", WireMessage::Pong);
    assert!(sb.process(1).is_ok());
    let line = |direction: Direction, message: WireMessage| MessageLogEntry {
        direction,
        agent: s("A1"),
        uri: s("u1"),
        message,
    };
    assert_eq!(
        sb.take_message_log(),
        vec![
            line(
                Direction::Out,
                WireMessage::StatusResponse(StatusData {
                    spaces: 0,
                    connections: 1,
                    redundant_count: 0,
                    version: WIRE_VERSION,
                })
            ),
            line(Direction::In, join_space("S1", "A1", 10)),
            line(Direction::Out, authoring_request("S1", "A1")),
            line(Direction::Out, gossiping_request("S1", "A1")),
            line(Direction::In, WireMessage::Pong),
        ]
    );
    assert_eq!(sb.take_message_log(), vec![]);
}

#[test]
fn a_message_without_route_is_still_logged() {
    let mut sb = three_agents(1, [10, 20, 30]);
    let _ = sb.take_message_log();
    sb.enqueue(WssEvent::ReceivedData(s("u2"), WsFrame::Close));
    connect(&mut sb, "u2");
    receive(&mut sb, "u2", "A2", join_space("S2", "A2", 20));
    assert!(sb.process(2).is_ok());
    let _ = sb.take_commands();
    let _ = sb.take_message_log();
    let _ = sb.take_reports();
    sb.enqueue(WssEvent::IncomingConnection(s("u5")));
    receive(&mut sb, "u5", "A5", WireMessage::Status);
    sb.enqueue(WssEvent::Error(s("u5"), s("gone")));
    receive(&mut sb, "u5", "A5", WireMessage::Status);
    assert!(sb.process(3).is_ok());
    assert_eq!(sb.take_reports(), vec![Sim2hError::NoRoute]);
    let log = sb.take_message_log();
    assert_eq!(log.len(), 2);
    assert_eq!(log[0].direction, Direction::Out);
    assert_eq!(log[1].uri, "u5");
}

#[test]
fn limbo_message_leaves_the_spaces_alone() {
    let mut sb = three_agents(1, [10, 20, 30]);
    connect(&mut sb, "u4");
    receive(&mut sb, "u4", "A1", publish("S1", "A1", entry("E1", 100, &["AS1"])));
    receive(&mut sb, "u4", "A1", leave_space("S1", "A1"));
    assert!(sb.process(2).is_ok());
    let space = sb.get_space(&s("S1")).unwrap();
    assert_eq!(space.all_aspects().len(), 0);
    assert_eq!(space.all_agents().len(), 3);
    assert_eq!(
        sb.take_commands(),
        vec![
            send("u4", WireMessage::Error(WireError::MessageWhileInLimbo)),
            send("u4", WireMessage::Error(WireError::MessageWhileInLimbo)),
        ]
    );
}

#[test]
fn query_in_full_sync_is_turned_down() {
    let mut sb = three_agents(1, [10, 20, 30]);
    receive(
        &mut sb,
        "u1",
        "A1",
        WireMessage::ClientToLib3h(ClientToLib3h::QueryEntry(query("S1", "A1", "E1", 100))),
    );
    assert!(sb.process(2).is_ok());
    assert_eq!(sb.take_reports(), vec![Sim2hError::QueryInFullSync]);
}

#[test]
fn query_goes_to_a_holder_that_lacks_nothing() {
    for seed in 0..20 {
        let mut sb = three_agents(seed, [90, 5000, 105]);
        sb.set_dht_algorithm(DhtAlgorithm::NaiveSharding { redundant_count: 2 });
        receive(&mut sb, "u1", "A1", publish("S1", "A1", entry("E1", 100, &["AS1", "AS2"])));
        receive(&mut sb, "u3", "A3", gossiping_result("S1", "A3", &[("E1", &["AS1"])]));
        assert!(sb.process(2).is_ok());
        let _ = sb.take_commands();
        let q = query("S1", "A2", "E1", 100);
        receive(&mut sb, "u2", "A2", WireMessage::ClientToLib3h(ClientToLib3h::QueryEntry(q.clone())));
        assert!(sb.process(3).is_ok());
        assert_eq!(
            sb.take_commands(),
            vec![send("u1", WireMessage::Lib3hToClient(Lib3hToClient::HandleQueryEntry(q)))]
        );
    }
}

#[test]
fn query_target_is_drawn_by_shuffle() {
    let mut targets = std::collections::BTreeSet::new();
    for seed in 0..64 {
        let mut sb = three_agents(seed, [90, 95, 105]);
        sb.set_dht_algorithm(DhtAlgorithm::NaiveSharding { redundant_count: 3 });
        let q = query("S1", "A2", "E1", 100);
        receive(&mut sb, "u2", "A2", WireMessage::ClientToLib3h(ClientToLib3h::QueryEntry(q)));
        assert!(sb.process(2).is_ok());
        let commands = sb.take_commands();
        assert_eq!(commands.len(), 1);
        match &commands[0] {
            WssCommand::SendMessage(uri, _) => {
                targets.insert(uri.clone());
            }
            other => panic!("unexpected command {:?}", other),
        }
    }
    assert_eq!(targets.len(), 3);
}

#[test]
fn same_seed_gives_the_same_run() {
    let run = |seed: u64| {
        let mut sb = three_agents(seed, [90, 95, 105]);
        sb.set_dht_algorithm(DhtAlgorithm::NaiveSharding { redundant_count: 3 });
        for _ in 0..8 {
            let q = query("S1", "A2", "E1", 100);
            receive(&mut sb, "u2", "A2", WireMessage::ClientToLib3h(ClientToLib3h::QueryEntry(q)));
        }
        assert!(sb.process(2).is_ok());
        sb.take_commands()
    };
    assert_eq!(run(11), run(11));
}

#[test]
fn query_result_returns_to_the_requester() {
    let mut sb = three_agents(1, [10, 20, 30]);
    let result = QueryEntryResultData {
        space_address: s("S1"),
        entry_address: s("E1"),
        request_id: s("q"),
        requester_agent_id: s("A2"),
        responder_agent_id: s("A1"),
        query_result: vec![4, 2],
    };
    receive(
        &mut sb,
        "u1",
        "A1",
        WireMessage::Lib3hToClientResponse(Lib3hToClientResponse::HandleQueryEntryResult(
            result.clone(),
        )),
    );
    assert!(sb.process(2).is_ok());
    assert_eq!(
        sb.take_commands(),
        vec![send(
            "u2",
            WireMessage::ClientToLib3hResponse(ClientToLib3hResponse::QueryEntryResult(result))
        )]
    );
}

#[test]
fn at_most_a_hundred_events_per_tick() {
    let mut sb = switchboard(1);
    for i in 0..250 {
        connect(&mut sb, &format!("u{}", i));
    }
    assert_eq!(sb.pending_events(), 250);
    assert!(sb.process(1).is_ok());
    assert_eq!(sb.pending_events(), 150);
    assert!(sb.is_open(&s("u99")));
    assert!(!sb.is_open(&s("u100")));
    assert!(sb.process(2).is_ok());
    assert!(sb.process(3).is_ok());
    assert_eq!(sb.pending_events(), 0);
    assert!(sb.is_open(&s("u249")));
}

fn from_server() -> WireMessage {
    WireMessage::Lib3hToClient(Lib3hToClient::HandleGetAuthoringEntryList(GetListData {
        space_address: s("S1"),
        provider_agent_id: s("A1"),
        request_id: s(""),
    }))
}

#[test]
fn server_only_message_on_a_joined_connection_breaks_the_protocol() {
    assert!(from_server().is_server_only());
    assert!(!WireMessage::Ping.is_server_only());
    let mut sb = three_agents(1, [10, 20, 30]);
    receive(&mut sb, "u1", "A1", from_server());
    let answer = QueryEntryResultData {
        space_address: s("S1"),
        entry_address: s("E1"),
        request_id: s("q"),
        requester_agent_id: s("A2"),
        responder_agent_id: s("A1"),
        query_result: vec![],
    };
    receive(
        &mut sb,
        "u1",
        "A1",
        WireMessage::ClientToLib3hResponse(ClientToLib3hResponse::QueryEntryResult(answer)),
    );
    assert!(sb.process(2).is_ok());
    assert_eq!(sb.take_reports(), vec![Sim2hError::WrongDirection, Sim2hError::WrongDirection]);
    assert_eq!(sb.take_commands(), vec![]);
    assert_eq!(sb.get_connection(&s("u1")), Some(ConnectionState::Joined(s("S1"), s("A1"))));
    assert_eq!(sb.get_space(&s("S1")).unwrap().all_agents().len(), 3);
}

#[test]
fn server_only_message_of_another_signer_is_a_signer_mismatch() {
    let mut sb = three_agents(1, [10, 20, 30]);
    receive(&mut sb, "u1", "A2", from_server());
    receive(&mut sb, "u9", "A1", from_server());
    assert!(sb.process(2).is_ok());
    assert_eq!(sb.take_reports(), vec![Sim2hError::SignerMismatch, Sim2hError::NoConnection]);
    assert_eq!(sb.take_commands(), vec![]);
}

#[test]
fn server_only_message_in_limbo_is_queued() {
    let mut sb = switchboard(1);
    connect(&mut sb, "u1");
    receive(&mut sb, "u1", "A1", from_server());
    assert!(sb.process(1).is_ok());
    assert_eq!(sb.take_reports(), vec![]);
    assert_eq!(
        sb.take_commands(),
        vec![send("u1", WireMessage::Error(WireError::MessageWhileInLimbo))]
    );
    assert_eq!(sb.get_connection(&s("u1")), Some(ConnectionState::Limbo(vec![from_server()])));
    receive(&mut sb, "u1", "A1", join_space("S1", "A1", 10));
    assert!(sb.process(2).is_ok());
    assert_eq!(sb.take_reports(), vec![Sim2hError::WrongDirection]);
    assert_eq!(sb.get_connection(&s("u1")), Some(ConnectionState::Joined(s("S1"), s("A1"))));
}

#[test]
fn bindings_agree_along_a_run() {
    let mut sb = three_agents(1, [10, 20, 30]);
    receive(&mut sb, "u1", "A1", publish("S1", "A1", entry("E1", 100, &["AS1"])));
    receive(&mut sb, "u2", "A2", leave_space("S1", "A2"));
    connect(&mut sb, "u4");
    receive(&mut sb, "u4", "A4", join_space("S2", "A4", 40));
    assert!(sb.process(2).is_ok());
    for (uri, space, agent) in [("u1", "S1", "A1"), ("u3", "S1", "A3"), ("u4", "S2", "A4")] {
        assert_eq!(
            sb.get_connection(&s(uri)),
            Some(ConnectionState::Joined(s(space), s(agent)))
        );
        assert_eq!(sb.get_space(&s(space)).unwrap().agent_id_to_uri(&s(agent)), Some(s(uri)));
    }
    assert!(sb.get_connection(&s("u2")).is_none());
    assert_eq!(sb.get_space(&s("S1")).unwrap().agent_id_to_uri(&s("A2")), None);
}

#[test]
fn known_aspects_only_grow_without_disconnections() {
    let mut sb = three_agents(1, [10, 20, 30]);
    receive(&mut sb, "u1", "A1", publish("S1", "A1", entry("E1", 100, &["AS1"])));
    assert!(sb.process(2).is_ok());
    receive(&mut sb, "u2", "A2", publish("S1", "A2", entry("E1", 100, &["AS2"])));
    receive(&mut sb, "u2", "A2", publish("S1", "A2", entry("E2", 50, &["AS1"])));
    receive(&mut sb, "u3", "A3", gossiping_result("S1", "A3", &[]));
    assert!(sb.process(3).is_ok());
    let space = sb.get_space(&s("S1")).unwrap();
    assert_eq!(
        space.all_aspects().to_pairs(),
        vec![(s("E1"), vec![s("AS1"), s("AS2")]), (s("E2"), vec![s("AS1")])]
    );
    for agent in space.agents_with_missing_aspects() {
        assert_eq!(agent, "A3");
    }
    assert!(space.agent_is_missing_all_aspects(&s("A3"), &s("E1"), &vec![s("AS1"), s("AS2")]));
    assert!(space.agent_is_missing_all_aspects(&s("A3"), &s("E2"), &vec![s("AS1")]));
}

#[test]
fn handle_message_can_be_called_directly() {
    let mut sb = three_agents(1, [10, 20, 30]);
    let r = sb.handle_message(&s("u1"), WireMessage::Ping, &s("A1"));
    assert_eq!(r, Ok(()));
    assert_eq!(sb.take_commands(), vec![send("u1", WireMessage::Pong)]);
    let r = sb.handle_message(&s("u1"), leave_space("S9", "A1"), &s("A1"));
    assert_eq!(r, Err(Sim2hError::SpaceMismatch));
}

#[test]
fn get_agent_not_missing_aspects_takes_the_first_that_can_help() {
    let mut sb = three_agents(1, [10, 20, 30]);
    receive(&mut sb, "u1", "A1", publish("S1", "A1", entry("E1", 100, &["AS1", "AS2"])));
    receive(&mut sb, "u2", "A2", gossiping_result("S1", "A2", &[]));
    assert!(sb.process(2).is_ok());
    let pool = vec![s("A3"), s("A2"), s("A1")];
    let aspects = vec![s("AS1"), s("AS2")];
    assert_eq!(
        sb.get_agent_not_missing_aspects(&s("E1"), &aspects, &s("A3"), &pool, &s("S1")),
        Some(s("A1"))
    );
    assert_eq!(
        sb.get_agent_not_missing_aspects(&s("E1"), &aspects, &s("A1"), &pool, &s("S1")),
        Some(s("A3"))
    );
    assert_eq!(
        sb.get_agent_not_missing_aspects(&s("E1"), &aspects, &s("A1"), &vec![s("A2"), s("A1")], &s("S1")),
        None
    );
    assert_eq!(
        sb.get_agent_not_missing_aspects(&s("E1"), &aspects, &s("A1"), &pool, &s("S9")),
        None
    );
}

#[test]
fn retry_round_visits_every_space() {
    let mut sb = switchboard(1);
    for (uri, space, agent) in
        [("u1", "S1", "A1"), ("u2", "S1", "A2"), ("v1", "S2", "B1"), ("v2", "S2", "B2")]
    {
        connect(&mut sb, uri);
        receive(&mut sb, uri, agent, join_space(space, agent, 10));
    }
    receive(&mut sb, "u1", "A1", publish("S1", "A1", entry("E1", 100, &["AS1"])));
    receive(&mut sb, "v1", "B1", publish("S2", "B1", entry("E2", 100, &["AS2"])));
    receive(&mut sb, "u2", "A2", gossiping_result("S1", "A2", &[]));
    receive(&mut sb, "v2", "B2", gossiping_result("S2", "B2", &[]));
    assert!(sb.process(1).is_ok());
    let _ = sb.take_commands();
    assert!(sb.process(10_000).is_ok());
    let mut commands = sb.take_commands();
    commands.sort_by_key(|c| match c {
        WssCommand::SendMessage(uri, _) => uri.clone(),
        WssCommand::CloseConnection(uri) => uri.clone(),
    });
    assert_eq!(
        commands,
        vec![send("u2", gossiping_request("S1", "A2")), send("v2", gossiping_request("S2", "B2"))]
    );
}

#[test]
fn agent_that_left_is_not_asked_again() {
    let mut sb = three_agents(1, [10, 20, 30]);
    receive(&mut sb, "u1", "A1", publish("S1", "A1", entry("E1", 100, &["AS1"])));
    receive(&mut sb, "u3", "A3", gossiping_result("S1", "A3", &[]));
    receive(&mut sb, "u3", "A3", leave_space("S1", "A3"));
    assert!(sb.process(2).is_ok());
    let _ = sb.take_commands();
    assert!(sb.process(10_000).is_ok());
    assert_eq!(sb.take_commands(), vec![]);
}
