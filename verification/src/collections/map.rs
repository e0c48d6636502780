use crate::collections::multi_map::{
    capacity_after_remove, capacity_for_insert, has_key, key_entries, max_capacity, MultiMapImpl,
    MIN_CAPACITY,
};
use crate::db::db_error::{DbError, DbErrorType};
use crate::db::field_at;
use crate::db::lemma_fields_round_trip;
use crate::storage::{lemma_u64_round_trip, u64_bytes, StorageIndex};
use vstd::multiset::*;
use vstd::prelude::*;

verus! {

/// State of a slot of an open addressing table.
#[derive(Clone, Copy, Debug, Default, PartialEq, Eq, Structural)]
pub enum MapValueState {
    #[default]
    Empty,
    Deleted,
    Valid,
}

impl MapValueState {
    /// The byte a state is stored as: Empty 0, Valid 1, Deleted 2.
    pub open spec fn spec_byte(&self) -> u8 {
        match self {
            MapValueState::Empty => 0,
            MapValueState::Valid => 1,
            MapValueState::Deleted => 2,
        }
    }

    pub fn serialize(&self) -> (result: Vec<u8>)
        ensures
            result@ == seq![self.spec_byte()],
    {
        let b: u8 = match self {
            MapValueState::Empty => 0,
            MapValueState::Deleted => 2,
            MapValueState::Valid => 1,
        };
        let mut v = Vec::new();
        v.push(b);
        v
    }

    pub fn deserialize(bytes: &[u8]) -> (result: Result<Self, DbError>)
        ensures
            result is Ok <==> (bytes@.len() > 0 && bytes@[0] <= 2),
            result matches Ok(s) ==> s.spec_byte() == bytes@[0],
            result matches Err(e) ==> e.description@
                == "MapValueState deserialization error: unknown value"@,
    {
        if bytes.len() > 0 {
            let b = bytes[0];
            if b == 0 {
                return Ok(MapValueState::Empty);
            } else if b == 1 {
                return Ok(MapValueState::Valid);
            } else if b == 2 {
                return Ok(MapValueState::Deleted);
            }
        }
        Err(
            DbError::serialization(
                DbErrorType::TypeError,
                "MapValueState deserialization error: unknown value",
            ),
        )
    }

    pub fn serialized_size(&self) -> (result: u64)
        ensures
            result == 1,
    {
        1
    }

    pub fn serialized_size_static() -> (result: u64)
        ensures
            result == 1,
    {
        1
    }
}

/// Deserializing a serialized state gives it back.
pub proof fn law_state_round_trip(state: MapValueState, other: MapValueState)
    requires
        other.spec_byte() == state.spec_byte(),
    ensures
        other == state,
{
}

/// Where the parts of a stored map live: its length and the vectors of
/// slot states, keys and values.
#[derive(Clone, Copy, Debug, Default)]
pub struct MapDataIndex {
    pub len: u64,
    pub states_index: StorageIndex,
    pub keys_index: StorageIndex,
    pub values_index: StorageIndex,
}

impl MapDataIndex {
    /// The four fields in the order they are serialized.
    pub open spec fn spec_fields(&self) -> Seq<u64> {
        seq![self.len, self.states_index.0, self.keys_index.0, self.values_index.0]
    }

    /// The serialized form: each field as eight little-endian bytes.
    pub open spec fn spec_bytes(&self) -> Seq<u8> {
        u64_bytes(self.len) + u64_bytes(self.states_index.0) + u64_bytes(self.keys_index.0)
            + u64_bytes(self.values_index.0)
    }

    pub fn serialized_size_static() -> (result: u64)
        ensures
            result == 32,
    {
        32
    }

    pub fn serialized_size(&self) -> (result: u64)
        ensures
            result == 32,
    {
        32
    }

    pub fn serialize(&self) -> (result: Vec<u8>)
        ensures
            result@ == self.spec_bytes(),
    {
        let mut bytes = crate::storage::serialize_u64(self.len);
        bytes.append(&mut self.states_index.serialize());
        bytes.append(&mut self.keys_index.serialize());
        bytes.append(&mut self.values_index.serialize());
        bytes
    }

    pub fn deserialize(bytes: &[u8]) -> (result: Result<Self, DbError>)
        ensures
            bytes@.len() >= 32 <==> result is Ok,
            result matches Ok(v) ==> forall|k: int|
                0 <= k < 4 ==> #[trigger] v.spec_fields()[k] == field_at(bytes@, k),
            result matches Err(e) ==> e.description@
                == "MapDataStorageIndex deserialization error: not enough data"@,
    {
        if bytes.len() < 32 {
            return Err(
                DbError::serialization(
                    DbErrorType::NotEnoughData,
                    "MapDataStorageIndex deserialization error: not enough data",
                ),
            );
        }
        let len = crate::storage::deserialize_u64(bytes).unwrap();
        let states_index = StorageIndex(crate::storage::deserialize_u64(&bytes[8..bytes.len()]).unwrap());
        let keys_index = StorageIndex(crate::storage::deserialize_u64(&bytes[16..bytes.len()]).unwrap());
        let values_index = StorageIndex(crate::storage::deserialize_u64(&bytes[24..bytes.len()]).unwrap());
        let result = MapDataIndex { len, states_index, keys_index, values_index };
        proof {
            assert(bytes@.subrange(0, bytes@.len() as int) =~= bytes@);
            assert(field_at(bytes@, 0) == len);
            assert(field_at(bytes@, 1) == states_index.0);
            assert(field_at(bytes@, 2) == keys_index.0);
            assert(field_at(bytes@, 3) == values_index.0);
        }
        Ok(result)
    }
}

/// Deserializing a serialized map index gives back every field.
pub proof fn law_map_data_index_round_trip(index: MapDataIndex)
    ensures
        index.spec_bytes().len() == 32,
        forall|k: int|
            0 <= k < 4 ==> #[trigger] field_at(index.spec_bytes(), k) == index.spec_fields()[k],
{
    let f = index.spec_fields();
    let b = index.spec_bytes();
    assert forall|k: int| 0 <= k < 4 implies u64_bytes(#[trigger] f[k]).len() == 8 by {
        lemma_u64_round_trip(f[k]);
    }
    assert(f[0] == index.len);
    assert(f[1] == index.states_index.0);
    assert(f[2] == index.keys_index.0);
    assert(f[3] == index.values_index.0);
    assert(b.subrange(0, 8) =~= u64_bytes(f[0]));
    assert(b.subrange(8, 16) =~= u64_bytes(f[1]));
    assert(b.subrange(16, 24) =~= u64_bytes(f[2]));
    assert(b.subrange(24, 32) =~= u64_bytes(f[3]));
    assert forall|k: int| 0 <= k < f.len() implies #[trigger] b.subrange(8 * k, 8 * k + 8)
        == u64_bytes(f[k]) by {
        if k == 0 {
        } else if k == 1 {
        } else if k == 2 {
        } else {
        }
    }
    lemma_fields_round_trip(f, b);
}

/// Every key occurs at most once, with one value.
pub open spec fn unique_keys(m: Multiset<(u64, u64)>) -> bool {
    &&& forall|e: (u64, u64)| #[trigger] m.count(e) <= 1
    &&& forall|k: u64, v1: u64, v2: u64|
        #[trigger] m.count((k, v1)) > 0 && #[trigger] m.count((k, v2)) > 0 ==> v1 == v2
}

/// The value stored with key `k`.
pub open spec fn value_of(m: Multiset<(u64, u64)>, k: u64) -> u64 {
    choose|v: u64| m.count((k, v)) > 0
}

/// The map that a multiset of entries with unique keys stands for.
pub open spec fn as_map(m: Multiset<(u64, u64)>) -> Map<u64, u64> {
    Map::new(|k: u64| has_key(m, k), |k: u64| value_of(m, k))
}

pub proof fn lemma_value_of(m: Multiset<(u64, u64)>, k: u64, v: u64)
    requires
        unique_keys(m),
        m.count((k, v)) > 0,
    ensures
        value_of(m, k) == v,
        as_map(m).contains_key(k),
        as_map(m)[k] == v,
{
    let w = value_of(m, k);
    assert(m.count((k, w)) > 0);
}

/// With unique keys there are as many entries as keys.
pub proof fn lemma_unique_len(m: Multiset<(u64, u64)>)
    requires
        unique_keys(m),
    ensures
        as_map(m).dom().finite(),
        as_map(m).dom().len() == m.len(),
    decreases m.len(),
{
    broadcast use {group_multiset_axioms, group_multiset_properties};

    if m.len() == 0 {
        assert(as_map(m).dom() =~= Set::<u64>::empty());
    } else {
        let e = m.choose();
        assert(m.count(e) > 0);
        let m2 = m.remove(e);
        assert(unique_keys(m2)) by {
            assert forall|k: u64, v1: u64, v2: u64|
                #[trigger] m2.count((k, v1)) > 0 && #[trigger] m2.count((k, v2)) > 0 implies v1
                == v2 by {
                assert(m.count((k, v1)) > 0);
                assert(m.count((k, v2)) > 0);
            }
        }
        lemma_unique_len(m2);
        assert(as_map(m).dom() =~= as_map(m2).dom().insert(e.0)) by {
            assert forall|k: u64| #[trigger] as_map(m).dom().contains(k) implies as_map(
                m2,
            ).dom().insert(e.0).contains(k) by {
                let v = choose|v: u64| m.count((k, v)) > 0;
                if k != e.0 {
                    assert(m2.count((k, v)) > 0);
                }
            }
            assert forall|k: u64| #[trigger] as_map(m2).dom().insert(e.0).contains(k) implies as_map(
                m,
            ).dom().contains(k) by {
                if k == e.0 {
                    assert(m.count((e.0, e.1)) > 0);
                } else {
                    let v = choose|v: u64| m2.count((k, v)) > 0;
                    assert(m.count((k, v)) > 0);
                }
            }
        }
        assert(!as_map(m2).dom().contains(e.0)) by {
            if has_key(m2, e.0) {
                let v = choose|v: u64| m2.count((e.0, v)) > 0;
                assert(m.count((e.0, v)) > 0);
                assert(v == e.1);
                assert(m.count(e) <= 1);
            }
        }
    }
}

/// A map from `u64` keys to `u64` values: a multimap that keeps one entry
/// per key.
pub struct MapImpl {
    multi_map: MultiMapImpl,
}

impl View for MapImpl {
    type V = Map<u64, u64>;

    closed spec fn view(&self) -> Map<u64, u64> {
        as_map(self.multi_map@)
    }
}

impl MapImpl {
    pub closed spec fn wf(&self) -> bool {
        &&& self.multi_map.wf()
        &&& unique_keys(self.multi_map@)
    }

    /// Number of slots of the underlying table.
    pub closed spec fn spec_capacity(&self) -> nat {
        self.multi_map.spec_capacity()
    }

    /// The entries as a multiset of pairs: each key with its value, once.
    pub closed spec fn spec_entries(&self) -> Multiset<(u64, u64)> {
        self.multi_map@
    }

    pub proof fn lemma_entries(&self, k: u64, v: u64)
        requires
            self.wf(),
        ensures
            self.spec_entries().count((k, v)) == if self@.contains_key(k) && self@[k] == v {
                1nat
            } else {
                0nat
            },
            self@.dom().finite(),
            self@.dom().len() == self.spec_entries().len(),
    {
        lemma_unique_len(self.multi_map@);
        if self.multi_map@.count((k, v)) > 0 {
            lemma_value_of(self.multi_map@, k, v);
        }
    }

    /// A map that holds a key has at least `MIN_CAPACITY` slots.
    pub proof fn lemma_nonempty_has_room(&self)
        requires
            self.wf(),
        ensures
            self@.len() > 0 ==> self.spec_capacity() >= MIN_CAPACITY,
    {
        lemma_unique_len(self.multi_map@);
        self.multi_map.lemma_nonempty_has_room();
    }

    /// An empty map.
    pub fn new() -> (result: Self)
        ensures
            result.wf(),
            result@ == Map::<u64, u64>::empty(),
    {
        let result = Self { multi_map: MultiMapImpl::new() };
        assert(result@ =~= Map::<u64, u64>::empty());
        result
    }

    pub fn capacity(&self) -> (result: u64)
        ensures
            result == self.spec_capacity(),
    {
        self.multi_map.capacity()
    }

    /// Whether `key` has a value.
    pub fn contains(&self, key: u64) -> (result: bool)
        requires
            self.wf(),
        ensures
            result == self@.contains_key(key),
    {
        self.multi_map.contains(key)
    }

    /// Whether `key` has the value `value`.
    pub fn contains_value(&self, key: u64, value: u64) -> (result: bool)
        requires
            self.wf(),
        ensures
            result == (self@.contains_key(key) && self@[key] == value),
    {
        let r = self.multi_map.contains_value(key, value);
        proof {
            if r {
                lemma_value_of(self.multi_map@, key, value);
            } else if self@.contains_key(key) && self@[key] == value {
                let v = choose|v: u64| self.multi_map@.count((key, v)) > 0;
                lemma_value_of(self.multi_map@, key, v);
            }
        }
        r
    }

    /// Sets the value of `key` to `value` and returns the value it replaced.
    pub fn insert(&mut self, key: u64, value: u64) -> (result: Option<u64>)
        requires
            old(self).wf(),
            old(self)@.len() * 4 < max_capacity(),
        ensures
            final(self).wf(),
            final(self)@ == old(self)@.insert(key, value),
            result == if old(self)@.contains_key(key) {
                Some(old(self)@[key])
            } else {
                None::<u64>
            },
            final(self).spec_capacity() == capacity_for_insert(
                old(self).spec_capacity(),
                old(self)@.len(),
            ),
    {
        proof {
            lemma_unique_len(self.multi_map@);
        }
        let ghost m0 = self.multi_map@;
        let r = self.multi_map.insert_or_replace(key, |_v: &u64| -> (r: bool) ensures r { true }, value);
        let ghost m1 = self.multi_map@;
        proof {
            match r {
                Some(v) => {
                    lemma_value_of(m0, key, v);
                    assert(unique_keys(m1)) by {
                        assert forall|k: u64, v1: u64, v2: u64|
                            #[trigger] m1.count((k, v1)) > 0 && #[trigger] m1.count((k, v2)) > 0 implies v1
                            == v2 by {
                            if k == key {
                                if v1 != value {
                                    assert(m0.count((k, v1)) > 0);
                                    assert(v1 == v);
                                }
                                if v2 != value {
                                    assert(m0.count((k, v2)) > 0);
                                    assert(v2 == v);
                                }
                            } else {
                                assert(m0.count((k, v1)) > 0);
                                assert(m0.count((k, v2)) > 0);
                            }
                        }
                        assert forall|e: (u64, u64)| #[trigger] m1.count(e) <= 1 by {
                            assert(m0.count(e) <= 1);
                        }
                    }
                    self.lemma_after_set(m0, key, value);
                },
                None => {
                    assert(!has_key(m0, key)) by {
                        if has_key(m0, key) {
                            let v = choose|v: u64| m0.count((key, v)) > 0;
                            assert(m0.count((key, v)) > 0);
                        }
                    }
                    assert(unique_keys(m1)) by {
                        assert forall|k: u64, v1: u64, v2: u64|
                            #[trigger] m1.count((k, v1)) > 0 && #[trigger] m1.count((k, v2)) > 0 implies v1
                            == v2 by {
                            if k == key {
                                if v1 != value {
                                    assert(m0.count((k, v1)) > 0);
                                }
                                if v2 != value {
                                    assert(m0.count((k, v2)) > 0);
                                }
                            } else {
                                assert(m0.count((k, v1)) > 0);
                                assert(m0.count((k, v2)) > 0);
                            }
                        }
                        assert forall|e: (u64, u64)| #[trigger] m1.count(e) <= 1 by {
                            if e.0 == key {
                                if m0.count(e) > 0 {
                                    assert(e == (key, e.1));
                                    assert(m0.count((key, e.1)) > 0);
                                    assert(has_key(m0, key));
                                }
                            }
                        }
                    }
                    self.lemma_after_set(m0, key, value);
                },
            }
        }
        r
    }

    /// The map after an update that left key `key` with the single value
    /// `value` and every other key as it was.
    proof fn lemma_after_set(&self, m0: Multiset<(u64, u64)>, key: u64, value: u64)
        requires
            unique_keys(m0),
            unique_keys(self.multi_map@),
            self.multi_map@.count((key, value)) > 0,
            forall|e: (u64, u64)| e.0 != key ==> #[trigger] self.multi_map@.count(e) == m0.count(e),
        ensures
            self@ == as_map(m0).insert(key, value),
    {
        let m1 = self.multi_map@;
        lemma_value_of(m1, key, value);
        assert forall|k: u64| #[trigger] as_map(m1).contains_key(k) == as_map(m0).insert(
            key,
            value,
        ).contains_key(k) by {
            if k != key {
                if has_key(m1, k) {
                    let v = choose|v: u64| m1.count((k, v)) > 0;
                    assert(m0.count((k, v)) > 0);
                }
                if has_key(m0, k) {
                    let v = choose|v: u64| m0.count((k, v)) > 0;
                    assert(m1.count((k, v)) > 0);
                }
            }
        }
        assert forall|k: u64| #[trigger] as_map(m1).contains_key(k) implies as_map(m1)[k]
            == as_map(m0).insert(key, value)[k] by {
            if k != key {
                let v = choose|v: u64| m1.count((k, v)) > 0;
                assert(m1.count((k, v)) > 0);
                assert(m0.count((k, v)) > 0);
                lemma_value_of(m1, k, v);
                lemma_value_of(m0, k, v);
            }
        }
        assert(self@ =~= as_map(m0).insert(key, value));
    }

    pub fn is_empty(&self) -> (result: bool)
        requires
            self.wf(),
        ensures
            result == (self@.len() == 0),
    {
        proof {
            lemma_unique_len(self.multi_map@);
        }
        self.multi_map.is_empty()
    }

    /// Every key with its value, in slot order.
    pub fn iter(&self) -> (result: Vec<(u64, u64)>)
        requires
            self.wf(),
        ensures
            forall|k: u64, v: u64| #[trigger] result@.to_multiset().count((k, v)) == if self@.contains_key(k)
                && self@[k] == v {
                1nat
            } else {
                0nat
            },
    {
        let r = self.multi_map.iter();
        proof {
            assert forall|k: u64, v: u64| #[trigger] r@.to_multiset().count((k, v)) == if self@.contains_key(k)
                && self@[k] == v {
                1nat
            } else {
                0nat
            } by {
                self.lemma_entries(k, v);
            }
        }
        r
    }

    /// Number of keys.
    pub fn len(&self) -> (result: u64)
        requires
            self.wf(),
        ensures
            result == self@.len(),
    {
        proof {
            lemma_unique_len(self.multi_map@);
        }
        self.multi_map.len()
    }

    /// Removes `key` and its value.
    pub fn remove(&mut self, key: u64)
        requires
            old(self).wf(),
        ensures
            final(self).wf(),
            final(self)@ == old(self)@.remove(key),
            final(self).spec_capacity() == if old(self)@.contains_key(key) {
                capacity_after_remove(old(self).spec_capacity(), final(self)@.len())
            } else {
                old(self).spec_capacity()
            },
    {
        let ghost m0 = self.multi_map@;
        self.multi_map.remove_key(key);
        let ghost m1 = self.multi_map@;
        proof {
            broadcast use {group_multiset_axioms, group_multiset_properties};

            if has_key(m0, key) {
                let v = choose|v: u64| m0.count((key, v)) > 0;
                assert(m1 =~= m0.remove((key, v))) by {
                    assert forall|e: (u64, u64)| #[trigger] m1.count(e) == m0.remove((key, v)).count(e) by {
                        if e.0 == key && e != (key, v) && m0.count(e) > 0 {
                            assert(m0.count((key, e.1)) > 0);
                        }
                    }
                }
                assert(m1.len() < m0.len());
            } else {
                assert(m1 =~= m0) by {
                    assert forall|e: (u64, u64)| #[trigger] m1.count(e) == m0.count(e) by {
                        if e.0 == key && m0.count(e) > 0 {
                            assert(m0.count((key, e.1)) > 0);
                        }
                    }
                }
            }
            assert(unique_keys(m1)) by {
                assert forall|k: u64, v1: u64, v2: u64|
                    #[trigger] m1.count((k, v1)) > 0 && #[trigger] m1.count((k, v2)) > 0 implies v1
                    == v2 by {
                    assert(m0.count((k, v1)) > 0);
                    assert(m0.count((k, v2)) > 0);
                }
                assert forall|e: (u64, u64)| #[trigger] m1.count(e) <= 1 by {
                    assert(m0.count(e) <= 1);
                }
            }
            assert forall|k: u64| #[trigger] self@.contains_key(k) == as_map(m0).remove(
                key,
            ).contains_key(k) by {
                if k != key {
                    if has_key(m1, k) {
                        let v = choose|v: u64| m1.count((k, v)) > 0;
                        assert(m0.count((k, v)) > 0);
                    }
                    if has_key(m0, k) {
                        let v = choose|v: u64| m0.count((k, v)) > 0;
                        assert(m1.count((k, v)) > 0);
                    }
                } else if has_key(m1, k) {
                    let v = choose|v: u64| m1.count((k, v)) > 0;
                    assert(m1.count((k, v)) > 0);
                }
            }
            assert forall|k: u64| #[trigger] self@.contains_key(k) implies self@[k] == as_map(
                m0,
            ).remove(key)[k] by {
                let v = choose|v: u64| m1.count((k, v)) > 0;
                assert(m1.count((k, v)) > 0);
                assert(m0.count((k, v)) > 0);
                lemma_value_of(m1, k, v);
                lemma_value_of(m0, k, v);
            }
            assert(self@ =~= as_map(m0).remove(key));
            lemma_unique_len(m1);
        }
    }

    /// Makes room for `capacity` slots.
    pub fn reserve(&mut self, capacity: u64)
        requires
            old(self).wf(),
            capacity <= max_capacity(),
        ensures
            final(self).wf(),
            final(self)@ == old(self)@,
            old(self).spec_capacity() < capacity ==> final(self).spec_capacity() == if capacity
                > MIN_CAPACITY {
                capacity as int
            } else {
                MIN_CAPACITY as int
            },
            old(self).spec_capacity() >= capacity ==> final(self).spec_capacity()
                == old(self).spec_capacity(),
    {
        self.multi_map.reserve(capacity);
    }

    /// The value of `key`, if it has one.
    pub fn value(&self, key: u64) -> (result: Option<u64>)
        requires
            self.wf(),
        ensures
            result == if self@.contains_key(key) {
                Some(self@[key])
            } else {
                None::<u64>
            },
    {
        let r = self.multi_map.value(key);
        proof {
            if let Some(v) = r {
                lemma_value_of(self.multi_map@, key, v);
            }
        }
        r
    }
}

/// Reading a key right after writing it gives the written value, and every
/// other key reads as before.
pub proof fn law_value_after_insert(before: MapImpl, after: MapImpl, key: u64, value: u64, other: u64)
    requires
        after@ == before@.insert(key, value),
    ensures
        after@.contains_key(key),
        after@[key] == value,
        other != key ==> after@.contains_key(other) == before@.contains_key(other),
        other != key && before@.contains_key(other) ==> after@[other] == before@[other],
{
}

/// A removed key reads as absent, and every other key reads as before.
pub proof fn law_value_after_remove(before: MapImpl, after: MapImpl, key: u64, other: u64)
    requires
        after@ == before@.remove(key),
    ensures
        !after@.contains_key(key),
        other != key ==> after@.contains_key(other) == before@.contains_key(other),
        other != key && before@.contains_key(other) ==> after@[other] == before@[other],
{
}

/// Inserting a key that is absent and removing it again restores the map.
pub proof fn law_remove_undoes_insert(m: Map<u64, u64>, key: u64, value: u64)
    requires
        !m.contains_key(key),
    ensures
        m.insert(key, value).remove(key) == m,
{
    assert(m.insert(key, value).remove(key) =~= m);
}

} // verus!
