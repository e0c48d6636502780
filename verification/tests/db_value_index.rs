use agdb::db::db_value_index::DbValueIndex;

#[test]
fn db_value_index_derived_from_debug() {
    let _ = format!("{:?}", DbValueIndex::new());
}

#[test]
fn derived_from_clone_partial_eq() {
    let index = DbValueIndex::new();
    assert_eq!(index, index.clone());
}

#[test]
fn value_type() {
    let mut index = DbValueIndex::default();
    index.set_type(3);

    assert_eq!(index.get_type(), 3);
}

#[test]
fn db_value_index_value() {
    let mut index = DbValueIndex::default();
    let value = vec![1_u8, 2_u8, 3_u8];

    assert!(index.set_value(&value));
    assert_eq!(index.value(), value);
    assert_eq!(index.size(), 3);
    assert!(index.is_value());
}

#[test]
fn value_type_size() {
    let mut index = DbValueIndex::default();
    let value = vec![1_u8, 2_u8, 3_u8];

    index.set_type(5);

    assert!(index.set_value(&value));
    assert_eq!(index.value(), value);
    assert_eq!(index.size(), 3);
    assert_eq!(index.get_type(), 5);
    assert!(index.is_value());
}

#[test]
fn value_max() {
    let mut index = DbValueIndex::default();
    let value = vec![1_u8; 15];
    assert!(index.set_value(&value));

    assert_eq!(index.value(), value);
    assert_eq!(index.size(), 15);
    assert!(index.is_value());
}

#[test]
fn value_too_large() {
    let mut index = DbValueIndex::default();
    let value = vec![1_u8; 16];
    assert!(!index.set_value(&value));

    assert_eq!(index.value(), Vec::<u8>::new());
    assert_eq!(index.size(), 0);
    assert!(index.is_value());
}

#[test]
fn set_index() {
    let mut index = DbValueIndex::default();
    index.set_index(10_u64);

    assert_eq!(index.value(), Vec::<u8>::new());
    assert_eq!(index.size(), 0);
    assert_eq!(index.index(), 10_u64);
    assert!(!index.is_value());
}

#[test]
fn db_value_index_serialize() {
    let mut index = DbValueIndex::new();
    assert!(index.set_value(&[1_u8, 2_u8, 3_u8]));

    let data = index.serialize();
    let other_index = DbValueIndex::deserialize(&data).unwrap();

    assert_eq!(index, other_index);
}

#[test]
fn db_value_index_bad_deserialize() {
    let bad_data = vec![1_u8; 15];
    assert_eq!(
        DbValueIndex::deserialize(&bad_data)
            .unwrap_err()
            .description,
        "DbValueIndex deserialization error: out of bounds"
    );
}

#[test]
fn db_value_index_serialized_size() {
    assert_eq!(DbValueIndex::default().serialized_size(), 16);
}

#[test]
fn db_value_index_index_is_little_endian() {
    let mut index = DbValueIndex::new();
    index.set_index(0x0102_0304_0506_0708_u64);

    assert_eq!(
        index.data()[0..8].to_vec(),
        vec![8_u8, 7, 6, 5, 4, 3, 2, 1]
    );
    assert_eq!(index.index(), 0x0102_0304_0506_0708_u64);
}

#[test]
fn db_value_index_zero_index_is_value() {
    let mut index = DbValueIndex::new();
    index.set_index(0);

    assert!(index.is_value());
}

#[test]
fn db_value_index_set_type_keeps_value() {
    let mut index = DbValueIndex::new();
    assert!(index.set_value(&[9_u8, 8]));
    index.set_type(0x1f);

    assert_eq!(index.get_type(), 0x0f);
    assert_eq!(index.size(), 2);
    assert_eq!(index.value(), &[9_u8, 8]);
}

#[test]
fn db_value_index_set_index_keeps_type() {
    let mut index = DbValueIndex::new();
    index.set_type(7);
    assert!(index.set_value(&[1_u8, 2, 3]));
    index.set_index(42);

    assert_eq!(index.get_type(), 7);
    assert_eq!(index.size(), 0);
    assert_eq!(index.index(), 42);
}

#[test]
fn db_value_index_deserialize_longer_input() {
    let mut bytes = vec![0_u8; 20];
    bytes[0] = 5;
    bytes[15] = 0x21;

    let index = DbValueIndex::deserialize(&bytes).unwrap();

    assert_eq!(index.get_type(), 2);
    assert_eq!(index.size(), 1);
    assert_eq!(index.value(), &[5_u8]);
}
