use std::collections::BTreeMap;

use sqlens::names::{contains_name, is_before, NameMap, NameSet};

fn name(s: &str) -> String {
    s.to_string()
}

#[test]
fn a_set_holds_each_name_once() {
    let mut set = NameSet::new();
    assert!(set.insert(name("a")));
    assert!(set.insert(name("b")));
    assert!(!set.insert(name("a")));
    assert_eq!(set.len(), 2);
    assert!(set.contains(&name("a")));
    assert!(set.remove(&name("a")));
    assert!(!set.remove(&name("a")));
    assert!(!set.contains(&name("a")));
    let copy = set.clone();
    set.retain(&vec![name("x")]);
    assert_eq!(set.len(), 0);
    assert!(copy.contains(&name("b")));
}

#[test]
fn a_map_lists_its_names_in_ascending_order() {
    let names = ["b", "a", "", "ab", "Z", "é", "🙂", "\u{ffff}", "a b"];
    let mut map = NameMap::new();
    let mut expected = BTreeMap::new();
    for (i, n) in names.iter().enumerate() {
        map.insert(name(n), format!("{i}"));
        expected.insert(name(n), format!("{i}"));
    }
    map.insert(name("a"), name("again"));
    expected.insert(name("a"), name("again"));
    assert_eq!(map.len(), expected.len());
    for (i, (key, value)) in expected.iter().enumerate() {
        assert_eq!(map.entry(i), (key, value));
        assert_eq!(map.get(key), Some(value));
    }
    map.remove(&name("a"));
    assert_eq!(map.get(&name("a")), None);
    assert_eq!(map.len(), expected.len() - 1);
    map.retain(&vec![name("Z"), name("🙂"), name("new")]);
    assert_eq!(map.len(), 2);
    assert_eq!(map.entry(0).0, "Z");
    assert_eq!(map.entry(1).0, "🙂");
    let copy = map.clone();
    map.clear();
    assert!(map.is_empty());
    assert!(!copy.is_empty());
}

#[test]
fn names_are_ordered_by_code_points() {
    assert!(is_before("a", "b"));
    assert!(is_before("a", "aa"));
    assert!(is_before("", "a"));
    assert!(!is_before("a", "a"));
    assert!(is_before("\u{ffff}", "🙂"));
    assert!(contains_name(&vec![name("x"), name("y")], &name("y")));
    assert!(!contains_name(&vec![name("x")], &name("y")));
}
