use sim2h::connection_state::ConnectionState;
use sim2h::error::Sim2hError;
use sim2h::ident::copy_ids;
use sim2h::protocol::{copy_bytes, EntryAspectData, EntryData};
use sim2h::str_set::StrSet;
use sim2h::switchboard::{agent_ids, all_agents_except_one, ids_of};
use sim2h::agent_info::AgentInfo;
use sim2h::table::Table;
use sim2h::wire_message::{WireError, WireMessage};

fn s(x: &str) -> String {
    x.to_string()
}

#[test]
fn table_keeps_the_order_of_insertion() {
    let mut t: Table<u32> = Table::new();
    assert_eq!(t.len(), 0);
    t.insert(s("b"), 2);
    t.insert(s("a"), 1);
    t.insert(s("c"), 3);
    t.insert(s("a"), 10);
    assert_eq!(t.len(), 3);
    assert_eq!(t.key_at(0), "b");
    assert_eq!(t.key_at(1), "a");
    assert_eq!(*t.value_at(1), 10);
    assert_eq!(t.get(&s("c")), Some(&3));
    assert_eq!(t.get(&s("d")), None);
    assert_eq!(t.index_of(&s("c")), Some(2));
    assert!(t.contains_key(&s("a")));
    assert!(!t.contains_key(&s("z")));
}

#[test]
fn table_remove_and_swap() {
    let mut t: Table<u32> = Table::new();
    t.insert(s("a"), 1);
    t.insert(s("b"), 2);
    t.insert(s("c"), 3);
    assert_eq!(t.remove(&s("b")), Some(2));
    assert_eq!(t.remove(&s("b")), None);
    assert_eq!(t.len(), 2);
    assert_eq!(t.key_at(1), "c");
    assert_eq!(t.swap_value(1, 30), 3);
    assert_eq!(t.get(&s("c")), Some(&30));
}

#[test]
fn str_set_has_each_member_once() {
    let mut set = StrSet::new();
    assert!(set.is_empty());
    assert!(set.insert(s("x")));
    assert!(set.insert(s("y")));
    assert!(!set.insert(s("x")));
    assert_eq!(set.len(), 2);
    assert!(set.contains(&s("y")));
    assert!(!set.contains(&s("z")));
    assert_eq!(set.member_at(0), "x");
    assert!(set.remove(&s("x")));
    assert!(!set.remove(&s("x")));
    assert_eq!(set.to_vec(), vec![s("y")]);
    assert_eq!(set.duplicate().to_vec(), vec![s("y")]);
}

#[test]
fn str_set_from_vec_drops_repetitions() {
    let set = StrSet::from_vec(&vec![s("b"), s("a"), s("b"), s("c"), s("a")]);
    assert_eq!(set.to_vec(), vec![s("b"), s("a"), s("c")]);
}

#[test]
fn copies_are_equal() {
    assert_eq!(copy_ids(&vec![s("a"), s("b")]), vec![s("a"), s("b")]);
    assert_eq!(copy_bytes(&vec![1, 2, 3]), vec![1, 2, 3]);
    let entry = EntryData {
        entry_address: s("E1"),
        entry_location: 5,
        aspect_list: vec![EntryAspectData {
            aspect_address: s("AS1"),
            type_hint: s("t"),
            aspect: vec![7, 8],
            publish_ts: 3,
        }],
    };
    assert_eq!(entry.duplicate(), entry);
    let message = WireMessage::Error(WireError::Other(s("oops")));
    assert_eq!(message.duplicate(), message);
    let state = ConnectionState::Limbo(vec![WireMessage::Ping, message]);
    assert_eq!(state.duplicate(), state);
    let joined = ConnectionState::new_joined(s("S1"), s("A1"));
    assert_eq!(joined.duplicate(), joined);
    assert!(!joined.in_limbo());
    assert!(ConnectionState::new().in_limbo());
}

#[test]
fn agents_except_one() {
    let mut t = Table::new();
    t.insert(s("A1"), AgentInfo::new(s("u1"), 1));
    t.insert(s("A2"), AgentInfo::new(s("u2"), 2));
    t.insert(s("A3"), AgentInfo::new(s("u3"), 3));
    assert_eq!(agent_ids(&t), vec![s("A1"), s("A2"), s("A3")]);
    let others = all_agents_except_one(&t, Some(&s("A2")));
    assert_eq!(ids_of(&others), vec![s("A1"), s("A3")]);
    assert_eq!(others[1].1.uri, "u3");
    assert_eq!(ids_of(&all_agents_except_one(&t, None)), vec![s("A1"), s("A2"), s("A3")]);
    assert_eq!(ids_of(&all_agents_except_one(&t, Some(&s("A9")))).len(), 3);
}

#[test]
fn errors_are_described_in_words() {
    assert_eq!(Sim2hError::SignerMismatch.describe(), "Signer does not match agent");
    assert_eq!(Sim2hError::UnvalidatedProxyAgent.describe(), "unvalidated proxy agent");
    assert_eq!(
        Sim2hError::QueryInFullSync.describe(),
        "Got ClientToLib3h::QueryEntry in full-sync mode"
    );
    for e in [
        Sim2hError::SpaceMismatch,
        Sim2hError::VerifyFailed,
        Sim2hError::NoConnection,
        Sim2hError::NotInLimbo,
        Sim2hError::NotJoined,
        Sim2hError::JoinNotProxied,
        Sim2hError::NotImplemented,
        Sim2hError::UriClaimed,
        Sim2hError::NoRoute,
        Sim2hError::WrongDirection,
    ] {
        assert!(!e.describe().is_empty());
    }
}
