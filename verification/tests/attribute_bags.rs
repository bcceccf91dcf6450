use sarex::values::ValueMap;

fn text(s: &str) -> String {
    s.to_string()
}

#[test]
fn new_bag_is_empty() {
    let bag = ValueMap::new();
    assert_eq!(bag.len(), 0);
    assert_eq!(bag.get(&text("host")), None);
}

#[test]
fn insert_appends_new_names_in_order() {
    let mut bag = ValueMap::new();
    bag.insert(text("host"), text("a"));
    bag.insert(text("port"), text("80"));
    bag.insert(text("zone"), text(""));
    assert_eq!(bag.len(), 3);
    assert_eq!(bag.key_at(0), "host");
    assert_eq!(bag.value_at(0), "a");
    assert_eq!(bag.key_at(1), "port");
    assert_eq!(bag.value_at(1), "80");
    assert_eq!(bag.key_at(2), "zone");
    assert_eq!(bag.value_at(2), "");
}

#[test]
fn insert_replaces_the_value_of_a_known_name_in_place() {
    let mut bag = ValueMap::new();
    bag.insert(text("host"), text("a"));
    bag.insert(text("port"), text("80"));
    bag.insert(text("host"), text("b"));
    assert_eq!(bag.len(), 2);
    assert_eq!(bag.key_at(0), "host");
    assert_eq!(bag.value_at(0), "b");
    assert_eq!(bag.key_at(1), "port");
    assert_eq!(bag.get(&text("host")), Some(&text("b")));
}

#[test]
fn get_finds_only_exact_names() {
    let mut bag = ValueMap::new();
    bag.insert(text("host"), text("a"));
    assert_eq!(bag.get(&text("host")), Some(&text("a")));
    assert_eq!(bag.get(&text("Host")), None);
    assert_eq!(bag.get(&text("hos")), None);
    assert_eq!(bag.get(&text("")), None);
}

#[test]
fn clone_keeps_entries_and_is_independent() {
    let mut bag = ValueMap::new();
    bag.insert(text("host"), text("a"));
    bag.insert(text("port"), text("80"));
    let mut copy = bag.clone();
    assert_eq!(copy.len(), 2);
    assert_eq!(copy.key_at(0), "host");
    assert_eq!(copy.value_at(1), "80");
    copy.insert(text("host"), text("z"));
    copy.insert(text("more"), text("1"));
    assert_eq!(bag.len(), 2);
    assert_eq!(bag.get(&text("host")), Some(&text("a")));
    assert_eq!(bag.get(&text("more")), None);
}
