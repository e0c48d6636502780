use agdb::collections::indexed_map::IndexedMapImpl;
use agdb::collections::multi_map::MultiMapImpl;

#[test]
fn iter_key() {
    let mut map = MultiMapImpl::new();

    assert_eq!(map.iter_key(1).len(), 0);

    map.insert(3, 30);
    map.insert(1, 10);
    map.insert(1, 20);
    map.insert(1, 30);
    map.insert(4, 40);
    map.remove_value(1, 10);

    let value = map.iter_key(1).into_iter().find(|v| v.1 == 20).unwrap();
    assert_eq!(value, (1, 20));

    let mut values = Vec::<(u64, u64)>::new();
    values.reserve(2);

    for (key, value) in map.iter_key(1) {
        values.push((key, value));
    }

    values.sort();

    assert_eq!(values, vec![(1, 20), (1, 30)]);
}

#[test]
fn remove_value_shrinks_capacity() {
    let mut map = MultiMapImpl::new();

    for i in 0..100 {
        map.insert(i, i);
    }

    assert_eq!(map.len(), 100);
    assert_eq!(map.capacity(), 128);

    for i in (0..100).rev() {
        map.remove_value(i, i);
    }

    assert_eq!(map.len(), 0);
    assert_eq!(map.capacity(), 64);
}

#[test]
fn multi_map_values_and_count() {
    let mut map = MultiMapImpl::new();

    assert_eq!(map.values_count(4), 0);

    map.insert(1, 100);
    map.insert(1, 200);
    map.insert(1, 300);
    map.insert(2, 7);
    map.insert(3, 8);
    map.remove_value(1, 200);

    assert_eq!(map.values_count(1), 2);
    assert_eq!(map.values_count(2), 1);
    assert_eq!(map.values_count(3), 1);
    assert_eq!(map.values_count(4), 0);

    let mut values = map.values(1);
    values.sort();
    assert_eq!(values, vec![100, 300]);
    assert!(map.contains(1));
    assert!(map.contains_value(1, 300));
    assert!(!map.contains_value(1, 200));
}

#[test]
fn multi_map_duplicate_entries() {
    let mut map = MultiMapImpl::new();
    map.insert(5, 1);
    map.insert(5, 1);

    assert_eq!(map.values_count(5), 2);
    map.remove_value(5, 1);
    assert_eq!(map.values_count(5), 1);
    assert!(map.contains_value(5, 1));
}

#[test]
fn multi_map_remove_key_removes_all() {
    let mut map = MultiMapImpl::new();
    for i in 0..10 {
        map.insert(9, i);
        map.insert(10, i);
    }
    map.remove_key(9);

    assert!(!map.contains(9));
    assert_eq!(map.values_count(10), 10);
    assert_eq!(map.len(), 10);
    assert_eq!(map.value(9), None);
}

#[test]
fn multi_map_insert_or_replace() {
    let mut map = MultiMapImpl::new();
    map.insert(10, 1);
    map.insert(10, 2);

    assert_eq!(map.insert_or_replace(10, |v| *v == 2, 3), Some(2));
    let mut values = map.values(10);
    values.sort();
    assert_eq!(values, vec![1, 3]);

    assert_eq!(map.insert_or_replace(10, |v| *v == 9, 4), None);
    assert_eq!(map.values_count(10), 3);

    assert_eq!(map.insert_or_replace(11, |_| true, 5), None);
    assert_eq!(map.value(11), Some(5));
}

#[test]
fn multi_map_iter_all() {
    let mut map = MultiMapImpl::new();
    map.insert(1, 11);
    map.insert(2, 22);
    map.insert(1, 12);

    let mut all = map.iter();
    all.sort();
    assert_eq!(all, vec![(1, 11), (1, 12), (2, 22)]);
    assert!(!map.is_empty());
}

#[test]
fn multi_map_reserve_keeps_entries() {
    let mut map = MultiMapImpl::new();
    map.insert(1, 1);
    map.insert(65, 2);
    map.reserve(1000);

    assert_eq!(map.capacity(), 1000);
    assert_eq!(map.value(1), Some(1));
    assert_eq!(map.value(65), Some(2));
}

#[test]
fn indexed_map_numbers_insert() {
    let mut map = IndexedMapImpl::new();
    let key = 7_u64;
    let value = 1_u64;

    map.insert(key, value);

    assert_eq!(map.value(key), Some(value));
    assert_eq!(map.key(value), Some(key));
}

#[test]
fn indexed_map_numbers_iter() {
    let mut map = IndexedMapImpl::new();
    map.insert(101, 1);
    map.insert(102, 2);
    map.insert(103, 3);

    let mut values = map.iter();
    values.sort();

    assert_eq!(values, vec![(101, 1), (102, 2), (103, 3)]);
}

#[test]
fn indexed_map_numbers_replace_by_key() {
    let mut map = IndexedMapImpl::new();
    let key = 7_u64;
    let value = 1_u64;
    let new_value = 2_u64;

    map.insert(key, value);
    map.insert(key, new_value);

    assert_eq!(map.value(key), Some(new_value));
    assert_eq!(map.key(new_value), Some(key));
    assert_eq!(map.key(value), None);
}

#[test]
fn indexed_map_numbers_replace_by_value() {
    let mut map = IndexedMapImpl::new();
    let key = 7_u64;
    let new_key = 8_u64;
    let value = 1_u64;

    map.insert(key, value);
    map.insert(new_key, value);

    assert_eq!(map.value(key), None);
    assert_eq!(map.value(new_key), Some(value));
    assert_eq!(map.key(value), Some(new_key));
}

#[test]
fn indexed_map_numbers_remove_key() {
    let mut map = IndexedMapImpl::new();
    let key = 7_u64;
    let value = 1_u64;

    map.insert(key, value);

    assert_eq!(map.value(key), Some(value));
    assert_eq!(map.key(value), Some(key));

    map.remove_key(key);
    map.remove_key(key);

    assert_eq!(map.value(key), None);
    assert_eq!(map.key(value), None);
}

#[test]
fn indexed_map_numbers_remove_value() {
    let mut map = IndexedMapImpl::new();
    let key = 7_u64;
    let value = 1_u64;

    map.insert(key, value);

    assert_eq!(map.value(key), Some(value));
    assert_eq!(map.key(value), Some(key));

    map.remove_value(value);
    map.remove_value(value);

    assert_eq!(map.value(key), None);
    assert_eq!(map.key(value), None);
}
