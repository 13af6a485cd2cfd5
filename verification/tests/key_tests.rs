use pool_stats::key::{key_order, KeyOrder};
use pool_stats::keymap::KeyMap;

fn key_map_of(entries: &[(&str, u32)]) -> KeyMap<u32> {
    let mut map = KeyMap::new();
    for (key, value) in entries {
        map.insert(key.to_string(), *value);
    }
    map
}

fn key_names(map: &KeyMap<u32>) -> Vec<String> {
    (0..map.len()).map(|i| map.key_at(i).unwrap().clone()).collect()
}

#[test]
fn key_order_of_equal_names_is_same() {
    assert_eq!(key_order("pool", "pool"), KeyOrder::Same);
    assert_eq!(key_order("", ""), KeyOrder::Same);
}

#[test]
fn key_order_goes_by_the_first_differing_byte() {
    assert_eq!(key_order("alpha", "beta"), KeyOrder::Before);
    assert_eq!(key_order("beta", "alpha"), KeyOrder::After);
    assert_eq!(key_order("p1", "p2"), KeyOrder::Before);
    assert_eq!(key_order("p10", "p2"), KeyOrder::Before);
}

#[test]
fn key_order_puts_a_prefix_first() {
    assert_eq!(key_order("", "a"), KeyOrder::Before);
    assert_eq!(key_order("pool", "pool-1"), KeyOrder::Before);
    assert_eq!(key_order("pool-1", "pool"), KeyOrder::After);
}

#[test]
fn key_order_is_that_of_the_utf8_bytes() {
    assert_eq!(key_order("Z", "a"), KeyOrder::Before);
    assert_eq!(key_order("z", "\u{e9}"), KeyOrder::Before);
    assert_eq!(key_order("\u{e9}", "\u{4e2d}"), KeyOrder::Before);
    assert_eq!(key_order("\u{ffff}", "\u{10000}"), KeyOrder::Before);
}

#[test]
fn key_order_agrees_with_the_order_of_strings() {
    let names = ["", "a", "A", "ab", "b", "p1", "p10", "p2", "\u{e9}", "\u{4e2d}", "zz"];
    for a in names {
        for b in names {
            let expected = match a.cmp(b) {
                std::cmp::Ordering::Less => KeyOrder::Before,
                std::cmp::Ordering::Equal => KeyOrder::Same,
                std::cmp::Ordering::Greater => KeyOrder::After,
            };
            assert_eq!(key_order(a, b), expected, "{:?} against {:?}", a, b);
        }
    }
}

#[test]
fn key_map_starts_empty() {
    let map: KeyMap<u32> = KeyMap::new();
    assert_eq!(map.len(), 0);
    assert!(map.is_empty());
    assert!(map.key_at(0).is_none());
    assert!(map.value_at(0).is_none());
    assert!(map.get("p1").is_none());
    assert!(!map.contains_key("p1"));
}

#[test]
fn key_map_keeps_names_in_order() {
    let map = key_map_of(&[("p2", 2), ("p10", 10), ("a", 0), ("p1", 1), ("z", 26)]);
    assert_eq!(key_names(&map), vec!["a", "p1", "p10", "p2", "z"]);
    assert_eq!(map.value_at(0), Some(&0));
    assert_eq!(map.value_at(2), Some(&10));
    assert_eq!(map.value_at(4), Some(&26));
    assert!(map.value_at(5).is_none());
    assert!(map.key_at(5).is_none());
}

#[test]
fn key_map_insert_replaces_and_returns_the_old_value() {
    let mut map = key_map_of(&[("p1", 1), ("p2", 2)]);
    assert_eq!(map.insert("p3".to_string(), 3), None);
    assert_eq!(map.insert("p2".to_string(), 20), Some(2));
    assert_eq!(map.len(), 3);
    assert_eq!(map.get("p1"), Some(&1));
    assert_eq!(map.get("p2"), Some(&20));
    assert_eq!(map.get("p3"), Some(&3));
    assert_eq!(key_names(&map), vec!["p1", "p2", "p3"]);
}

#[test]
fn key_map_remove_takes_the_name_out() {
    let mut map = key_map_of(&[("p1", 1), ("p2", 2), ("p3", 3)]);
    assert_eq!(map.remove("p2"), Some(2));
    assert_eq!(map.remove("p2"), None);
    assert_eq!(map.remove("nope"), None);
    assert_eq!(map.len(), 2);
    assert!(map.contains_key("p1"));
    assert!(!map.contains_key("p2"));
    assert!(map.contains_key("p3"));
    assert_eq!(key_names(&map), vec!["p1", "p3"]);
}

#[test]
fn key_map_finds_every_name_among_many() {
    let mut map = KeyMap::new();
    for i in 0..200u32 {
        map.insert(format!("pool-{}", (i * 37) % 200), i);
    }
    assert_eq!(map.len(), 200);
    for i in 0..200u32 {
        assert_eq!(map.get(&format!("pool-{}", (i * 37) % 200)), Some(&i));
    }
    let names = key_names(&map);
    let mut sorted = names.clone();
    sorted.sort();
    assert_eq!(names, sorted);
}
