use agdb::collections::map::{MapDataIndex, MapImpl, MapValueState};
use agdb::storage::StorageIndex;

#[test]
fn map_derived_from_clone() {
    let state = MapValueState::Empty;
    let other = state.clone();
    assert_eq!(state, other);
}

#[test]
fn contains_key() {
    let mut map = MapImpl::new();

    assert!(!map.contains(1));

    map.insert(1, 10);

    assert!(map.contains(1));
}

#[test]
fn contains_key_removed() {
    let mut map = MapImpl::new();
    map.insert(1, 10);
    map.remove(1);

    assert!(!map.contains(1));
}

#[test]
fn contains_key_missing() {
    let mut map = MapImpl::new();
    map.insert(1, 10);

    assert!(!map.contains(2));
}

#[test]
fn contains_value() {
    let mut map = MapImpl::new();

    assert!(!map.contains_value(1, 10));

    map.insert(1, 10);

    assert!(map.contains_value(1, 10));
}

#[test]
fn contains_value_removed() {
    let mut map = MapImpl::new();
    map.insert(1, 10);
    map.remove(1);

    assert!(!map.contains_value(1, 1));
}

#[test]
fn contains_value_missing() {
    let mut map = MapImpl::new();
    map.insert(1, 10);

    assert!(!map.contains_value(1, 1));
}

#[test]
fn map_from_storage_index() {
    let mut map = MapImpl::new();
    map.insert(1, 1);
    map.insert(3, 2);
    map.insert(5, 3);
    map.remove(3);

    let expected = vec![(1_u64, 1_u64), (5_u64, 3_u64)];

    assert_eq!(map.iter(), expected);
}

#[test]
fn map_insert() {
    let mut map = MapImpl::new();

    map.insert(1, 10);
    map.insert(5, 15);
    map.insert(7, 20);

    assert_eq!(map.len(), 3);
    assert_eq!(map.value(1), Some(10));
    assert_eq!(map.value(5), Some(15));
    assert_eq!(map.value(7), Some(20));
}

#[test]
fn insert_reallocates() {
    let mut map = MapImpl::new();

    assert_eq!(map.capacity(), 0);

    for i in 0..100 {
        map.insert(i, i);
    }

    assert_eq!(map.len(), 100);
    assert_eq!(map.capacity(), 128);

    for i in 0..100 {
        assert_eq!(map.value(i), Some(i));
    }
}

#[test]
fn insert_reallocates_with_collisions() {
    let mut map = MapImpl::new();

    for i in 1..100 {
        map.insert(i * 64 - 1, i);
    }

    for i in 1..100 {
        assert_eq!(map.value(i * 64 - 1), Some(i));
    }
}

#[test]
fn insert_same_key() {
    let mut map = MapImpl::new();

    assert_eq!(map.insert(1, 10), None);
    assert_eq!(map.insert(5, 15), None);
    assert_eq!(map.len(), 2);
    assert_eq!(map.insert(5, 20), Some(15));
    assert_eq!(map.len(), 2);

    assert_eq!(map.value(1), Some(10));
    assert_eq!(map.value(5), Some(20));
}

#[test]
fn map_is_empty() {
    let mut map = MapImpl::new();

    assert!(map.is_empty());
    map.insert(1, 10);
    assert!(!map.is_empty());
    map.remove(1);
    assert!(map.is_empty());
}

#[test]
fn map_iter() {
    let mut map = MapImpl::new();

    map.insert(1, 10);
    map.insert(5, 15);
    map.insert(7, 20);
    map.insert(2, 30);
    map.insert(4, 13);
    map.remove(7);

    let mut actual = map.iter();
    actual.sort();
    let expected: Vec<(u64, u64)> = vec![(1, 10), (2, 30), (4, 13), (5, 15)];

    assert_eq!(actual, expected);
}

#[test]
fn map_remove() {
    let mut map = MapImpl::new();

    map.insert(1, 10);
    map.insert(5, 15);
    map.insert(7, 20);

    assert_eq!(map.len(), 3);
    map.remove(5);

    assert_eq!(map.len(), 2);
    assert_eq!(map.value(1), Some(10));
    assert_eq!(map.value(5), None);
    assert_eq!(map.value(7), Some(20));
}

#[test]
fn remove_deleted() {
    let mut map = MapImpl::new();

    map.insert(1, 10);
    map.insert(5, 15);
    map.insert(7, 20);

    assert_eq!(map.len(), 3);

    map.remove(5);

    assert_eq!(map.len(), 2);
    assert_eq!(map.value(5), None);

    map.remove(5);

    assert_eq!(map.len(), 2);
}

#[test]
fn map_remove_missing() {
    let mut map = MapImpl::new();

    assert_eq!(map.len(), 0);
    map.remove(0);

    map.insert(1, 10);

    assert_eq!(map.len(), 1);

    map.remove(0);

    assert_eq!(map.len(), 1);
}

#[test]
fn remove_shrinks_capacity() {
    let mut map = MapImpl::new();

    for i in 0..100 {
        map.insert(i, i);
    }

    assert_eq!(map.len(), 100);
    assert_eq!(map.capacity(), 128);

    for i in (0..100).rev() {
        map.remove(i);
    }

    assert_eq!(map.len(), 0);
    assert_eq!(map.capacity(), 64);
}

#[test]
fn map_reserve_larger() {
    let mut map = MapImpl::new();
    map.insert(1, 1);

    let capacity = map.capacity() + 10;
    let size = map.len();

    map.reserve(capacity);

    assert_eq!(map.capacity(), capacity);
    assert_eq!(map.len(), size);
    assert_eq!(map.value(1), Some(1));
}

#[test]
fn reserve_same() {
    let mut map = MapImpl::new();
    map.insert(1, 1);

    let capacity = map.capacity();
    let size = map.len();

    map.reserve(capacity);

    assert_eq!(map.capacity(), capacity);
    assert_eq!(map.len(), size);
}

#[test]
fn map_reserve_smaller() {
    let mut map = MapImpl::new();
    map.insert(1, 1);

    let current_capacity = map.capacity();
    let capacity = current_capacity - 10;
    let size = map.len();

    map.reserve(capacity);

    assert_eq!(map.capacity(), current_capacity);
    assert_eq!(map.len(), size);
}

#[test]
fn map_value_missing() {
    let map = MapImpl::new();

    assert_eq!(map.value(0), None);
}

#[test]
fn values_at_end() {
    let mut map = MapImpl::new();

    map.insert(127, 10);
    map.insert(255, 11);
    map.insert(191, 12);

    assert_eq!(map.value(127), Some(10));
    assert_eq!(map.value(255), Some(11));
    assert_eq!(map.value(191), Some(12));
}

#[test]
fn map_bad_deserialize() {
    let error = MapDataIndex::deserialize(&Vec::<u8>::new()).err().unwrap();
    assert_eq!(
        error.description,
        "MapDataStorageIndex deserialization error: not enough data"
    );
    assert!(error.cause.is_none());
}

#[test]
fn map_derived_from_debug() {
    let value = MapValueState::Deleted;
    let _ = format!("{value:?}");
}

#[test]
fn map_derived_from_default() {
    assert_eq!(MapValueState::default(), MapValueState::Empty);
}

#[test]
fn map_value_state_bad_deserialize() {
    let error = MapValueState::deserialize(&Vec::<u8>::new()).err().unwrap();
    assert_eq!(
        error.description,
        "MapValueState deserialization error: unknown value"
    );
    assert!(error.cause.is_none());
}

#[test]
fn map_serialized_size() {
    assert_eq!(MapValueState::default().serialized_size(), 1);
}

#[test]
fn map_value_state_round_trip() {
    for state in [
        MapValueState::Empty,
        MapValueState::Deleted,
        MapValueState::Valid,
    ] {
        let bytes = state.serialize();
        assert_eq!(bytes.len(), 1);
        assert_eq!(MapValueState::deserialize(&bytes).unwrap(), state);
    }
    assert_eq!(MapValueState::Valid.serialize(), vec![1_u8]);
    assert_eq!(MapValueState::Deleted.serialize(), vec![2_u8]);
    assert!(MapValueState::deserialize(&[3_u8]).is_err());
}

#[test]
fn map_data_index_round_trip() {
    let index = MapDataIndex {
        len: 7,
        states_index: StorageIndex(1),
        keys_index: StorageIndex(2),
        values_index: StorageIndex(3),
    };
    let bytes = index.serialize();
    assert_eq!(bytes.len(), 32);
    assert_eq!(bytes[0], 7);
    let other = MapDataIndex::deserialize(&bytes).unwrap();
    assert_eq!(other.len, 7);
    assert_eq!(other.states_index, StorageIndex(1));
    assert_eq!(other.keys_index, StorageIndex(2));
    assert_eq!(other.values_index, StorageIndex(3));
    assert!(MapDataIndex::deserialize(&bytes[0..31]).is_err());
}

#[test]
fn map_many_inserts_and_removes() {
    let mut map = MapImpl::new();
    for i in 0..1000_u64 {
        assert_eq!(map.insert(i * 7, i), None);
    }
    for i in 0..1000_u64 {
        if i % 3 == 0 {
            map.remove(i * 7);
        }
    }
    for i in 0..1000_u64 {
        let expected = if i % 3 == 0 { None } else { Some(i) };
        assert_eq!(map.value(i * 7), expected);
    }
    assert_eq!(map.len(), 666);
}

#[test]
fn map_rehash_with_wrapped_cluster() {
    let mut map = MapImpl::new();
    for k in [60_u64, 61, 62, 63, 188, 252, 316] {
        map.insert(k, k + 1);
    }
    for k in 0..60_u64 {
        map.insert(1000 + k * 64 + 5, k);
    }
    for k in [60_u64, 61, 62, 63, 188, 252, 316] {
        assert_eq!(map.value(k), Some(k + 1));
    }
    for k in 0..60_u64 {
        assert_eq!(map.value(1000 + k * 64 + 5), Some(k));
    }
}
