use signal_box_sim::track_graph::extensions::Extensions;
use signal_box_sim::track_graph::TrackGraphID;

#[test]
fn insert_hands_back_what_the_slot_held() {
    let mut bag = Extensions::new();
    assert_eq!(bag.insert(5u64), None);
    assert_eq!(bag.insert(7u64), Some(5));
    assert_eq!(bag.get::<u64>(), Some(&7));
    // Another type has a slot of its own.
    assert_eq!(bag.insert("seven".to_string()), None);
    assert_eq!(bag.get::<u64>(), Some(&7));
    assert_eq!(bag.get::<String>(), Some(&"seven".to_string()));
    assert_eq!(bag.get::<usize>(), None);
}

#[test]
fn contains_and_remove_go_by_the_type() {
    let mut bag = Extensions::new();
    assert!(!bag.contains::<TrackGraphID>());
    bag.insert(TrackGraphID(3));
    bag.insert(4usize);
    assert!(bag.contains::<TrackGraphID>());
    assert!(bag.contains::<usize>());
    assert!(!bag.contains::<u64>());
    assert_eq!(bag.remove::<TrackGraphID>(), Some(TrackGraphID(3)));
    assert_eq!(bag.remove::<TrackGraphID>(), None);
    assert!(!bag.contains::<TrackGraphID>());
    assert!(bag.contains::<usize>());
}

#[test]
fn get_mut_writes_into_the_bag() {
    let mut bag = Extensions::new();
    assert!(bag.get_mut::<String>().is_none());
    bag.insert("a".to_string());
    bag.get_mut::<String>().unwrap().push('b');
    assert_eq!(bag.get::<String>(), Some(&"ab".to_string()));
}

#[test]
fn get_or_insert_keeps_what_is_there() {
    let mut bag = Extensions::new();
    assert_eq!(*bag.get_or_insert(1u64), 1);
    assert_eq!(*bag.get_or_insert(2u64), 1);
    *bag.get_or_insert(3u64) += 10;
    assert_eq!(bag.get::<u64>(), Some(&11));
    assert_eq!(*bag.get_or_insert_with(|| 8usize), 8);
    assert_eq!(*bag.get_or_insert_with(|| -> usize { unreachable!() }), 8);
}

#[test]
fn clear_empties_every_slot() {
    let mut bag = Extensions::new();
    bag.insert(1u64);
    bag.insert(2usize);
    bag.insert("x".to_string());
    bag.insert(TrackGraphID(4));
    bag.clear();
    assert!(!bag.contains::<u64>());
    assert!(!bag.contains::<usize>());
    assert!(!bag.contains::<String>());
    assert!(!bag.contains::<TrackGraphID>());
}

#[test]
fn extend_writes_the_other_bag_over_this_one() {
    let mut bag = Extensions::new();
    bag.insert(1u64);
    bag.insert("mine".to_string());
    let mut other = Extensions::new();
    other.insert(2u64);
    other.insert(9usize);
    bag.extend(other);
    assert_eq!(bag.get::<u64>(), Some(&2));
    assert_eq!(bag.get::<usize>(), Some(&9));
    assert_eq!(bag.get::<String>(), Some(&"mine".to_string()));
    assert_eq!(bag.get::<TrackGraphID>(), None);
}
