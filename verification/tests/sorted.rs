use live_sync::ids::NamespaceId;
use live_sync::sorted::{comes_before, SortedMap, SortedSet};

fn key(byte: u8) -> NamespaceId {
    NamespaceId::from_bytes([byte; 32])
}

#[test]
fn bytes_are_compared_from_the_front() {
    let mut a = [0; 32];
    let mut b = [0; 32];
    assert!(!comes_before(&a, &b));
    a[31] = 255;
    b[0] = 1;
    assert!(comes_before(&a, &b));
    assert!(!comes_before(&b, &a));
    a[0] = 1;
    assert!(comes_before(&b, &a));
}

#[test]
fn a_map_keeps_its_keys_in_order() {
    let mut map: SortedMap<NamespaceId, u32> = SortedMap::new();
    assert!(map.is_empty());
    assert_eq!(map.insert(key(2), 20), None);
    assert_eq!(map.insert(key(1), 10), None);
    assert_eq!(map.insert(key(3), 30), None);
    assert_eq!(map.insert(key(2), 21), Some(20));
    assert_eq!(map.keys(), vec![key(1), key(2), key(3)]);
    assert_eq!(map.get(&key(2)), Some(&21));
    assert_eq!(map.get(&key(4)), None);
    *map.get_mut(&key(3)).unwrap() = 31;
    assert_eq!(map.remove(&key(3)), Some(31));
    assert_eq!(map.remove(&key(3)), None);
    assert!(map.contains_key(&key(1)));
    assert!(!map.contains_key(&key(3)));
    map.clear();
    assert!(map.is_empty());
    assert!(map.get_mut(&key(1)).is_none());
}

#[test]
fn a_set_holds_each_item_once() {
    let mut set: SortedSet<NamespaceId> = SortedSet::new();
    assert!(set.insert(key(5)));
    assert!(!set.insert(key(5)));
    assert!(set.insert(key(4)));
    assert!(set.contains(&key(4)));
    assert_eq!(set.to_vec(), vec![key(4), key(5)]);
    assert!(set.remove(&key(4)));
    assert!(!set.remove(&key(4)));
    assert!(!set.is_empty());
    assert!(set.remove(&key(5)));
    assert!(set.is_empty());
}
