use agdb::collections::bit_set::BitSet;

#[test]
fn clear() {
    let mut bitset = BitSet::new();

    bitset.set(10_u64);
    bitset.clear();

    assert!(!bitset.value(10_u64));
}

#[test]
fn bit_set_derived_from_default() {
    let _bitset = BitSet::default();
}

#[test]
fn bit_set_insert() {
    let mut bitset = BitSet::new();

    assert!(!bitset.value(10_u64));

    bitset.set(10_u64);

    assert!(bitset.value(10_u64));
}

#[test]
fn insert_multiple() {
    let mut bitset = BitSet::new();

    assert!(!bitset.value(10_u64));
    assert!(!bitset.value(11_u64));
    assert!(!bitset.value(2_u64));

    bitset.set(10_u64);
    bitset.set(11_u64);
    bitset.set(2_u64);

    assert!(bitset.value(10_u64));
    assert!(bitset.value(11_u64));
    assert!(bitset.value(2_u64));
}

#[test]
fn unset() {
    let mut bitset = BitSet::new();

    bitset.set(10_u64);
    bitset.set(11_u64);
    bitset.set(2_u64);

    bitset.unset(11_u64);

    assert!(bitset.value(10_u64));
    assert!(!bitset.value(11_u64));
    assert!(bitset.value(2_u64));
}

#[test]
fn remove_unset() {
    let mut bitset = BitSet::new();

    bitset.set(10_u64);
    bitset.set(11_u64);
    bitset.set(2_u64);

    bitset.unset(9_u64);

    assert!(bitset.value(10_u64));
    assert!(bitset.value(11_u64));
    assert!(bitset.value(2_u64));
}

#[test]
fn remove_beyond_length() {
    let mut bitset = BitSet::new();

    bitset.set(10_u64);
    bitset.set(11_u64);
    bitset.set(2_u64);

    bitset.unset(150_u64);

    assert!(bitset.value(10_u64));
    assert!(bitset.value(11_u64));
    assert!(bitset.value(2_u64));
}

#[test]
fn bit_set_value_missing() {
    let mut bitset = BitSet::new();

    bitset.set(5_u64);

    assert!(!bitset.value(2_u64));
}

#[test]
fn value_beyond_length() {
    let bitset = BitSet::new();

    assert!(!bitset.value(10_u64));
}

#[test]
fn bit_set_unset_of_absent_value_keeps_it_absent() {
    let mut bitset = BitSet::new();

    bitset.set(10_u64);
    bitset.unset(9_u64);

    assert!(!bitset.value(9_u64));
    assert!(bitset.value(10_u64));
    bitset.unset(9_u64);
    assert!(!bitset.value(9_u64));
}

#[test]
fn bit_set_set_then_unset_clears() {
    let mut bitset = BitSet::with_capacity(64);

    bitset.set(63_u64);
    assert!(bitset.value(63_u64));
    bitset.unset(63_u64);
    assert!(!bitset.value(63_u64));
    assert!(!bitset.value(62_u64));
}

#[test]
fn bit_set_large_value() {
    let mut bitset = BitSet::new();

    bitset.set(1_000_000_u64);
    assert!(bitset.value(1_000_000_u64));
    assert!(!bitset.value(999_999_u64));
    assert!(!bitset.value(1_000_001_u64));
}
