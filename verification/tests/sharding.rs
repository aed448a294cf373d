use sim2h::agent_info::AgentInfo;
use sim2h::ident::id_precedes;
use sim2h::naive_sharding::{closest_agents, distance, fold_location, precedes};
use sim2h::table::Table;

fn s(x: &str) -> String {
    x.to_string()
}

fn table(agents: &[(&str, u32)]) -> Table<AgentInfo> {
    let mut t = Table::new();
    for (id, location) in agents {
        t.insert(s(id), AgentInfo::new(format!("uri-{}", id), *location));
    }
    t
}

fn ids(members: &Vec<(String, AgentInfo)>) -> Vec<String> {
    members.iter().map(|m| m.0.clone()).collect()
}

#[test]
fn distance_is_the_shorter_way_round() {
    assert_eq!(distance(0, 0), 0);
    assert_eq!(distance(10, 3), 7);
    assert_eq!(distance(3, 10), 7);
    assert_eq!(distance(0, u32::MAX), 1);
    assert_eq!(distance(u32::MAX, 0), 1);
    assert_eq!(distance(0, 0x8000_0000), 0x8000_0000);
    assert_eq!(distance(0, 0x8000_0001), 0x7fff_ffff);
    assert_eq!(distance(0xffff_fff0, 0x10), 0x20);
}

#[test]
fn identifiers_are_ordered_lexicographically() {
    assert!(id_precedes(&s("A1"), &s("A2")));
    assert!(!id_precedes(&s("A2"), &s("A1")));
    assert!(!id_precedes(&s("A1"), &s("A1")));
    assert!(id_precedes(&s("A"), &s("A1")));
    assert!(id_precedes(&s(""), &s("A")));
    assert!(id_precedes(&s("A10"), &s("A2")));
    assert!(id_precedes(&s("z"), &s("é")));
}

#[test]
fn nearer_ranks_first_and_ties_go_by_identifier() {
    let near = (s("B"), AgentInfo::new(s("u"), 99));
    let far = (s("A"), AgentInfo::new(s("u"), 110));
    let tied = (s("C"), AgentInfo::new(s("u"), 101));
    assert!(precedes(100, &near, &far));
    assert!(!precedes(100, &far, &near));
    assert!(precedes(100, &near, &tied));
    assert!(!precedes(100, &tied, &near));
    assert!(!precedes(100, &near, &near));
}

#[test]
fn closest_returns_the_nearest_in_rank_order() {
    let t = table(&[("A1", 90), ("A2", 5000), ("A3", 105), ("A4", 0xffff_ff00)]);
    assert_eq!(ids(&closest_agents(&t, 100, 2)), vec![s("A3"), s("A1")]);
    assert_eq!(ids(&closest_agents(&t, 100, 3)), vec![s("A3"), s("A1"), s("A4")]);
    assert_eq!(ids(&closest_agents(&t, 0, 1)), vec![s("A1")]);
    assert_eq!(ids(&closest_agents(&t, 0xffff_ff80, 1)), vec![s("A4")]);
    assert_eq!(ids(&closest_agents(&t, 0xffff_fff0, 1)), vec![s("A1")]);
}

#[test]
fn closest_returns_all_when_there_are_no_more_than_asked_for() {
    let t = table(&[("A1", 90), ("A2", 5000), ("A3", 105)]);
    assert_eq!(closest_agents(&t, 100, 3).len(), 3);
    assert_eq!(closest_agents(&t, 100, 4).len(), 3);
    assert_eq!(closest_agents(&t, 100, u64::MAX).len(), 3);
    assert_eq!(closest_agents(&t, 100, 0).len(), 0);
    assert_eq!(closest_agents(&Table::new(), 100, 2).len(), 0);
}

#[test]
fn closest_breaks_ties_by_identifier() {
    let t = table(&[("B", 110), ("A", 90), ("C", 90)]);
    assert_eq!(ids(&closest_agents(&t, 100, 2)), vec![s("A"), s("B")]);
    assert_eq!(ids(&closest_agents(&t, 100, 3)), vec![s("A"), s("B"), s("C")]);
}

#[test]
fn closest_does_not_depend_on_the_order_of_insertion() {
    let agents = [("A1", 90), ("A2", 5000), ("A3", 105), ("A4", 95), ("A5", 110)];
    let expected = ids(&closest_agents(&table(&agents), 100, 3));
    assert_eq!(expected, vec![s("A3"), s("A4"), s("A1")]);
    let mut rotated = agents;
    for _ in 0..agents.len() {
        rotated.rotate_left(1);
        assert_eq!(ids(&closest_agents(&table(&rotated), 100, 3)), expected);
    }
    let mut reversed = agents;
    reversed.reverse();
    assert_eq!(ids(&closest_agents(&table(&reversed), 100, 3)), expected);
}

#[test]
fn closest_hands_out_the_records() {
    let t = table(&[("A1", 90)]);
    let members = closest_agents(&t, 100, 1);
    assert_eq!(members[0].1.uri, "uri-A1");
    assert_eq!(members[0].1.location, 90);
}

#[test]
fn a_hash_folds_into_a_place_on_the_ring() {
    assert_eq!(fold_location(&vec![]), 0);
    assert_eq!(fold_location(&vec![0xff]), 0xff);
    assert_eq!(fold_location(&vec![1, 2, 3, 4]), 0x0403_0201);
    assert_eq!(fold_location(&vec![1, 2, 3, 4, 0x10]), 0x0403_0211);
    assert_eq!(fold_location(&vec![1, 2, 3, 4, 1, 2, 3, 4]), 0);
    assert_eq!(fold_location(&vec![0, 0, 0, 0x80, 0, 0, 0, 0x7f]), 0xff00_0000);
    assert_eq!(fold_location(&vec![0xaa; 16]), 0);
    assert_eq!(fold_location(&vec![0xaa; 15]), 0xaa00_0000);
}
