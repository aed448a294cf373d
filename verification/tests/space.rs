use sim2h::error::Sim2hError;
use sim2h::space::Space;

fn s(x: &str) -> String {
    x.to_string()
}

#[test]
fn join_agent_records_the_address() {
    let mut space = Space::new();
    assert_eq!(space.join_agent(s("A1"), s("u1"), 10), Ok(()));
    assert_eq!(space.join_agent(s("A2"), s("u2"), 20), Ok(()));
    assert_eq!(space.agent_id_to_uri(&s("A1")), Some(s("u1")));
    assert_eq!(space.agent_id_to_uri(&s("A2")), Some(s("u2")));
    assert_eq!(space.agent_id_to_uri(&s("A3")), None);
    assert_eq!(space.all_agents().len(), 2);
}

#[test]
fn joining_again_replaces_the_record() {
    let mut space = Space::new();
    assert_eq!(space.join_agent(s("A1"), s("u1"), 10), Ok(()));
    assert_eq!(space.join_agent(s("A1"), s("u5"), 11), Ok(()));
    assert_eq!(space.agent_id_to_uri(&s("A1")), Some(s("u5")));
    assert_eq!(space.all_agents().get(&s("A1")).unwrap().location, 11);
    assert_eq!(space.all_agents().len(), 1);
    assert_eq!(space.join_agent(s("A1"), s("u5"), 11), Ok(()));
}

#[test]
fn join_agent_fails_on_an_address_of_another_agent() {
    let mut space = Space::new();
    assert_eq!(space.join_agent(s("A1"), s("u1"), 10), Ok(()));
    assert_eq!(space.join_agent(s("A2"), s("u1"), 20), Err(Sim2hError::UriClaimed));
    assert_eq!(space.agent_id_to_uri(&s("A2")), None);
    assert_eq!(space.agent_id_to_uri(&s("A1")), Some(s("u1")));
}

#[test]
fn remove_agent_tells_how_many_are_left() {
    let mut space = Space::new();
    let _ = space.join_agent(s("A1"), s("u1"), 10);
    let _ = space.join_agent(s("A2"), s("u2"), 20);
    assert_eq!(space.remove_agent(&s("A9")), 2);
    assert_eq!(space.remove_agent(&s("A1")), 1);
    assert_eq!(space.agent_id_to_uri(&s("A1")), None);
    assert_eq!(space.remove_agent(&s("A2")), 0);
}

#[test]
fn add_aspect_is_idempotent() {
    let mut space = Space::new();
    space.add_aspect(s("E1"), s("AS1"));
    space.add_aspect(s("E1"), s("AS1"));
    space.add_aspect(s("E1"), s("AS2"));
    assert_eq!(space.all_aspects().to_pairs(), vec![(s("E1"), vec![s("AS1"), s("AS2")])]);
}

#[test]
fn entry_locations_are_kept() {
    let mut space = Space::new();
    assert_eq!(space.entry_location(&s("E1")), None);
    space.set_entry_location(s("E1"), 100);
    space.set_entry_location(s("E2"), 7);
    space.set_entry_location(s("E1"), 101);
    assert_eq!(space.entry_location(&s("E1")), Some(101));
    assert_eq!(space.entry_location(&s("E2")), Some(7));
}

#[test]
fn ledger_of_missing_aspects() {
    let mut space = Space::new();
    assert!(space.agent_is_missing_all_aspects(&s("A1"), &s("E1"), &vec![]));
    assert!(!space.agent_is_missing_some_aspect_for_entry(&s("A1"), &s("E1")));
    space.add_missing_aspect(s("A1"), s("E1"), s("AS1"));
    space.add_missing_aspect(s("A2"), s("E1"), s("AS1"));
    space.add_missing_aspect(s("A1"), s("E1"), s("AS2"));
    space.add_missing_aspect(s("A1"), s("E1"), s("AS1"));
    space.add_missing_aspect(s("A1"), s("E2"), s("AS3"));
    assert_eq!(space.agents_with_missing_aspects(), vec![s("A1"), s("A2")]);
    assert!(space.agent_is_missing_all_aspects(&s("A1"), &s("E1"), &vec![s("AS1"), s("AS2")]));
    assert!(!space.agent_is_missing_all_aspects(&s("A1"), &s("E1"), &vec![s("AS1"), s("AS3")]));
    assert!(!space.agent_is_missing_all_aspects(&s("A2"), &s("E1"), &vec![s("AS1"), s("AS2")]));
    assert!(space.agent_is_missing_some_aspect_for_entry(&s("A2"), &s("E1")));
    assert!(!space.agent_is_missing_some_aspect_for_entry(&s("A2"), &s("E2")));
}

#[test]
fn striking_the_last_line_forgets_the_agent() {
    let mut space = Space::new();
    space.add_missing_aspect(s("A1"), s("E1"), s("AS1"));
    space.add_missing_aspect(s("A1"), s("E1"), s("AS2"));
    space.add_missing_aspect(s("A2"), s("E1"), s("AS1"));
    space.remove_missing_aspect(&s("A1"), &s("E1"), &s("AS1"));
    assert!(space.agent_is_missing_some_aspect_for_entry(&s("A1"), &s("E1")));
    space.remove_missing_aspect(&s("A1"), &s("E1"), &s("AS9"));
    space.remove_missing_aspect(&s("A1"), &s("E1"), &s("AS2"));
    assert!(!space.agent_is_missing_some_aspect_for_entry(&s("A1"), &s("E1")));
    assert_eq!(space.agents_with_missing_aspects(), vec![s("A2")]);
}

#[test]
fn agents_supposed_to_hold_entry_are_the_nearest() {
    let mut space = Space::new();
    let _ = space.join_agent(s("A1"), s("u1"), 90);
    let _ = space.join_agent(s("A2"), s("u2"), 5000);
    let _ = space.join_agent(s("A3"), s("u3"), 105);
    let holders = space.agents_supposed_to_hold_entry(100, 2);
    let ids: Vec<String> = holders.iter().map(|m| m.0.clone()).collect();
    assert_eq!(ids, vec![s("A3"), s("A1")]);
    assert_eq!(space.agents_supposed_to_hold_entry(100, 7).len(), 3);
}

#[test]
fn aspects_in_shard_are_those_of_the_entries_held() {
    let mut space = Space::new();
    let _ = space.join_agent(s("A1"), s("u1"), 90);
    let _ = space.join_agent(s("A2"), s("u2"), 5000);
    let _ = space.join_agent(s("A3"), s("u3"), 105);
    space.add_aspect(s("E1"), s("AS1"));
    space.set_entry_location(s("E1"), 100);
    space.add_aspect(s("E2"), s("AS2"));
    space.set_entry_location(s("E2"), 4000);
    space.add_aspect(s("E3"), s("AS3"));
    assert_eq!(
        space.aspects_in_shard_for_agent(&s("A1"), 1).to_pairs(),
        Vec::<(String, Vec<String>)>::new()
    );
    assert_eq!(
        space.aspects_in_shard_for_agent(&s("A3"), 1).to_pairs(),
        vec![(s("E1"), vec![s("AS1")])]
    );
    assert_eq!(
        space.aspects_in_shard_for_agent(&s("A2"), 1).to_pairs(),
        vec![(s("E2"), vec![s("AS2")])]
    );
    assert_eq!(
        space.aspects_in_shard_for_agent(&s("A1"), 3).to_pairs(),
        vec![(s("E1"), vec![s("AS1")]), (s("E2"), vec![s("AS2")])]
    );
}
