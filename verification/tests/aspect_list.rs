use sim2h::aspect_list::AspectList;

fn s(x: &str) -> String {
    x.to_string()
}

fn pairs(items: &[(&str, &[&str])]) -> Vec<(String, Vec<String>)> {
    items.iter().map(|(e, xs)| (s(e), xs.iter().map(|x| s(x)).collect())).collect()
}

fn list(items: &[(&str, &[&str])]) -> AspectList {
    AspectList::from_pairs(&pairs(items))
}

#[test]
fn diff_of_a_list_with_itself_is_empty() {
    let a = list(&[("E1", &["AS1", "AS2"]), ("E2", &["AS3"]), ("E3", &[])]);
    assert_eq!(a.diff(&a).len(), 0);
    assert_eq!(a.diff(&a).to_pairs(), vec![]);
}

#[test]
fn diff_keeps_what_the_other_lacks() {
    let a = list(&[("E1", &["AS1", "AS2"]), ("E2", &["AS3"]), ("E3", &["AS4", "AS5"])]);
    let b = list(&[("E3", &["AS5"]), ("E1", &["AS1"]), ("E2", &["AS3"]), ("E9", &["AS1"])]);
    assert_eq!(a.diff(&b).to_pairs(), pairs(&[("E1", &["AS2"]), ("E3", &["AS4"])]));
    assert_eq!(b.diff(&a).to_pairs(), pairs(&[("E9", &["AS1"])]));
}

#[test]
fn diff_with_the_empty_list_drops_only_empty_entries() {
    let a = list(&[("E1", &["AS1"]), ("E2", &[])]);
    assert_eq!(a.diff(&AspectList::new()).to_pairs(), pairs(&[("E1", &["AS1"])]));
    assert_eq!(AspectList::new().diff(&a).len(), 0);
}

#[test]
fn from_pairs_merges_repeated_entries_and_aspects() {
    let a = list(&[("E1", &["AS1", "AS1", "AS2"]), ("E2", &["AS3"]), ("E1", &["AS2", "AS4"])]);
    assert_eq!(a.to_pairs(), pairs(&[("E1", &["AS1", "AS2", "AS4"]), ("E2", &["AS3"])]));
    assert_eq!(a.len(), 2);
}

#[test]
fn from_pairs_is_idempotent() {
    let a = list(&[("E1", &["AS1", "AS1", "AS2"]), ("E2", &[]), ("E1", &["AS4"])]);
    let again = AspectList::from_pairs(&a.to_pairs());
    assert_eq!(again.to_pairs(), a.to_pairs());
}

#[test]
fn per_entry_and_contains() {
    let a = list(&[("E1", &["AS1", "AS2"]), ("E2", &[])]);
    assert_eq!(a.per_entry(&s("E1")).unwrap().to_vec(), vec![s("AS1"), s("AS2")]);
    assert_eq!(a.per_entry(&s("E2")).unwrap().len(), 0);
    assert!(a.per_entry(&s("E3")).is_none());
    assert!(a.contains(&s("E1"), &s("AS2")));
    assert!(!a.contains(&s("E1"), &s("AS3")));
    assert!(!a.contains(&s("E3"), &s("AS1")));
}

#[test]
fn entry_addresses_are_listed_in_order_of_insertion() {
    let a = list(&[("E2", &["AS1"]), ("E1", &["AS1"]), ("E3", &[])]);
    assert_eq!(a.entry_addresses(), vec![s("E2"), s("E1"), s("E3")]);
    assert_eq!(a.entry_at(1), "E1");
    assert_eq!(a.aspects_at(0).to_vec(), vec![s("AS1")]);
}

#[test]
fn add_is_idempotent() {
    let mut a = AspectList::new();
    a.add(s("E1"), s("AS1"));
    a.add(s("E1"), s("AS1"));
    a.add(s("E2"), s("AS1"));
    a.add(s("E1"), s("AS2"));
    assert_eq!(a.to_pairs(), pairs(&[("E1", &["AS1", "AS2"]), ("E2", &["AS1"])]));
}

#[test]
fn add_all_makes_an_entry_even_without_aspects() {
    let mut a = AspectList::new();
    a.add_all(&s("E1"), &vec![]);
    a.add_all(&s("E2"), &vec![s("AS1"), s("AS1")]);
    assert_eq!(a.to_pairs(), pairs(&[("E1", &[]), ("E2", &["AS1"])]));
}

#[test]
fn filtered_by_entry_hash_restricts() {
    let a = list(&[("E1", &["AS1"]), ("E2", &["AS2"]), ("E3", &["AS3"])]);
    let keep = a.filtered_by_entry_hash(|e| e != "E2");
    assert_eq!(keep.to_pairs(), pairs(&[("E1", &["AS1"]), ("E3", &["AS3"])]));
    assert_eq!(a.filtered_by_entry_hash(|_| false).len(), 0);
    assert_eq!(a.filtered_by_entry_hash(|_| true).to_pairs(), a.to_pairs());
}

#[test]
fn restricted_to_one_entry() {
    let a = list(&[("E1", &["AS1"]), ("E2", &["AS2", "AS3"])]);
    assert_eq!(a.restricted_to(&s("E2")).to_pairs(), pairs(&[("E2", &["AS2", "AS3"])]));
    assert_eq!(a.restricted_to(&s("E9")).len(), 0);
}

#[test]
fn put_entry_replaces_the_aspects() {
    let mut a = list(&[("E1", &["AS1"]), ("E2", &["AS2"])]);
    let other = list(&[("X", &["AS7", "AS8"])]);
    a.put_entry(s("E1"), other.aspects_at(0).duplicate());
    assert_eq!(a.to_pairs(), pairs(&[("E1", &["AS7", "AS8"]), ("E2", &["AS2"])]));
}

#[test]
fn pretty_string_renders_a_line_per_entry() {
    let a = list(&[("E1", &["AS1", "AS2"]), ("E2", &[]), ("E3", &["AS3"])]);
    assert_eq!(a.pretty_string(), "E1: AS1, AS2\nE2: \nE3: AS3\n");
    assert_eq!(AspectList::new().pretty_string(), "");
}

#[test]
fn duplicate_is_equal() {
    let a = list(&[("E1", &["AS1", "AS2"]), ("E2", &[])]);
    assert_eq!(a.duplicate().to_pairs(), a.to_pairs());
}
