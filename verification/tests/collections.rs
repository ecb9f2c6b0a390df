use cvm_announcements::schedule::next_round;
use cvm_announcements::sorted::{drop_repeats, TextMap, TextSet};

fn strings(items: &[&str]) -> Vec<String> {
    items.iter().map(|item| item.to_string()).collect()
}

#[test]
fn a_map_keeps_its_keys_in_order() {
    let mut map: TextMap<u32> = TextMap::new();
    assert_eq!(map.len(), 0);
    for (key, value) in [("m", 1), ("z", 2), ("a", 3), ("m", 4), ("b", 5)] {
        map.set(key.to_string(), value);
    }
    assert_eq!(map.len(), 4);
    let expected: Vec<(String, u32)> = vec![
        ("a".to_string(), 3),
        ("b".to_string(), 5),
        ("m".to_string(), 4),
        ("z".to_string(), 2),
    ];
    assert_eq!(map.as_entries(), &expected);
    assert_eq!(map.entry_at(2), &("m".to_string(), 4));
    assert_eq!(map.get("b"), Some(&5));
    assert_eq!(map.get("c"), None);
    assert_eq!(map.remove("b"), Some(5));
    assert_eq!(map.remove("b"), None);
    assert_eq!(map.len(), 3);
}

#[test]
fn a_map_is_cut_down_to_the_keys_that_are_kept() {
    let mut map = TextMap::from_entries(vec![
        ("a".to_string(), 1u32),
        ("b".to_string(), 2),
        ("c".to_string(), 3),
        ("d".to_string(), 4),
    ]);
    map.retain_keys(&TextSet::collect(&strings(&["d", "x", "b"])));
    assert_eq!(map.as_entries(), &vec![("b".to_string(), 2), ("d".to_string(), 4)]);
    map.retain_keys(&TextSet::new());
    assert_eq!(map.len(), 0);
}

#[test]
fn a_set_holds_each_text_once() {
    let mut set = TextSet::collect(&strings(&["b", "a", "b", "é", "Z"]));
    assert_eq!(set.len(), 4);
    assert_eq!(set.to_vec(), strings(&["Z", "a", "b", "é"]));
    assert_eq!(set.item_at(0), "Z");
    assert!(set.contains("é"));
    assert!(!set.contains("e"));
    assert!(set.insert("e".to_string()));
    assert!(!set.insert("e".to_string()));
    assert_eq!(set.to_vec(), strings(&["Z", "a", "b", "e", "é"]));
}

#[test]
fn the_order_of_a_set_does_not_depend_on_how_it_was_filled() {
    let one = TextSet::collect(&strings(&["c", "a", "b"]));
    let other = TextSet::collect(&strings(&["b", "b", "c", "a"]));
    assert_eq!(one.to_vec(), other.to_vec());
}

#[test]
fn a_run_goes_through_all_rounds() {
    let mut seen = vec![1];
    let mut round = 1;
    while let Some(next) = next_round(round, 3) {
        seen.push(next);
        round = next;
    }
    assert_eq!(seen, vec![1, 2, 3]);
    assert_eq!(next_round(1, 1), None);
    assert_eq!(next_round(u32::MAX, u32::MAX), None);
    assert_eq!(next_round(u32::MAX - 1, u32::MAX), Some(u32::MAX));
}

#[test]
fn repeats_are_dropped_where_they_come_again() {
    assert_eq!(
        drop_repeats(&strings(&["c", "a", "c", "b", "a", "a", "d"])),
        strings(&["c", "a", "b", "d"])
    );
    assert!(drop_repeats(&Vec::new()).is_empty());
}
