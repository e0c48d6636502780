use crate::collections::map::MapImpl;
use crate::collections::multi_map::max_capacity;
use vstd::prelude::*;

verus! {

/// Whether `kv` and `vk` are inverse maps of each other.
pub open spec fn inverse(kv: Map<u64, u64>, vk: Map<u64, u64>) -> bool {
    &&& forall|k: u64|
        #[trigger] kv.contains_key(k) ==> vk.contains_key(kv[k]) && vk[kv[k]] == k
    &&& forall|v: u64|
        #[trigger] vk.contains_key(v) ==> kv.contains_key(vk[v]) && kv[vk[v]] == v
}

/// `m` with any key mapped to `value` removed and `key` mapped to `value`.
pub open spec fn insert_unique(m: Map<u64, u64>, key: u64, value: u64) -> Map<u64, u64> {
    Map::new(
        |k: u64| k == key || (m.contains_key(k) && m[k] != value),
        |k: u64|
            if k == key {
                value
            } else {
                m[k]
            },
    )
}

/// A one-to-one map: every key has at most one value and every value
/// belongs to at most one key, with lookups in both directions.
pub struct IndexedMapImpl {
    keys_to_values: MapImpl,
    values_to_keys: MapImpl,
}

impl View for IndexedMapImpl {
    type V = Map<u64, u64>;

    closed spec fn view(&self) -> Map<u64, u64> {
        self.keys_to_values@
    }
}

impl IndexedMapImpl {
    pub closed spec fn wf(&self) -> bool {
        &&& self.keys_to_values.wf()
        &&& self.values_to_keys.wf()
        &&& inverse(self.keys_to_values@, self.values_to_keys@)
    }

    /// A value is held by one key at most: the map is one-to-one, so looking
    /// a key up by its value is unambiguous.
    pub proof fn law_value_identifies_key(&self, k1: u64, k2: u64)
        requires
            self.wf(),
            self@.contains_key(k1),
            self@.contains_key(k2),
            self@[k1] == self@[k2],
        ensures
            k1 == k2,
    {
    }

    /// An empty map.
    pub fn new() -> (result: Self)
        ensures
            result.wf(),
            result@ == Map::<u64, u64>::empty(),
    {
        Self { keys_to_values: MapImpl::new(), values_to_keys: MapImpl::new() }
    }

    /// Maps `key` to `value`, dropping the previous value of `key` and the
    /// previous key of `value`.
    pub fn insert(&mut self, key: u64, value: u64)
        requires
            old(self).wf(),
            old(self)@.len() * 4 < max_capacity(),
        ensures
            final(self).wf(),
            final(self)@ == insert_unique(old(self)@, key, value),
    {
        let ghost kv0 = self.keys_to_values@;
        let ghost vk0 = self.values_to_keys@;
        proof {
            self.lemma_sizes();
        }
        if let Some(v) = self.keys_to_values.insert(key, value) {
            self.values_to_keys.remove(v);
        }
        let ghost vk1 = self.values_to_keys@;
        proof {
            assert(vk1.len() <= vk0.len()) by {
                if kv0.contains_key(key) {
                    assert(vk1 =~= vk0.remove(kv0[key]));
                    vk0.lemma_remove_key_len(kv0[key]);
                } else {
                    assert(vk1 =~= vk0);
                }
            }
        }
        if let Some(k) = self.values_to_keys.insert(value, key) {
            self.keys_to_values.remove(k);
        }
        proof {
            let kv = self.keys_to_values@;
            let vk = self.values_to_keys@;
            assert(kv =~= insert_unique(kv0, key, value));
            assert(inverse(kv, vk));
        }
    }

    proof fn lemma_sizes(&self)
        requires
            self.wf(),
        ensures
            self.values_to_keys@.len() == self@.len(),
            self@.dom().finite(),
            self.values_to_keys@.dom().finite(),
    {
        self.keys_to_values.lemma_entries(0, 0);
        self.values_to_keys.lemma_entries(0, 0);
        let kv = self.keys_to_values@;
        let vk = self.values_to_keys@;
        let f = |k: u64| kv[k];
        assert(vk.dom() =~= kv.dom().map(f)) by {
            assert forall|v: u64| vk.dom().contains(v) implies #[trigger] kv.dom().map(f).contains(v) by {
                assert(f(vk[v]) == v);
            }
        }
        assert(vstd::relations::injective_on(f, kv.dom()));
        vstd::set_lib::lemma_map_size(kv.dom(), vk.dom(), f);
    }

    /// Every key with its value, in slot order.
    pub fn iter(&self) -> (result: Vec<(u64, u64)>)
        requires
            self.wf(),
        ensures
            forall|k: u64, v: u64| #[trigger] result@.to_multiset().count((k, v)) == if self@.contains_key(k)
                && self@[k] == v {
                1nat
            } else {
                0nat
            },
    {
        self.keys_to_values.iter()
    }

    /// The key whose value is `value`, if any.
    pub fn key(&self, value: u64) -> (result: Option<u64>)
        requires
            self.wf(),
        ensures
            match result {
                Some(k) => self@.contains_key(k) && self@[k] == value,
                None => forall|k: u64| self@.contains_key(k) ==> self@[k] != value,
            },
    {
        self.values_to_keys.value(value)
    }

    /// Removes `key` and its value.
    pub fn remove_key(&mut self, key: u64)
        requires
            old(self).wf(),
        ensures
            final(self).wf(),
            final(self)@ == old(self)@.remove(key),
    {
        if let Some(value) = self.keys_to_values.value(key) {
            self.values_to_keys.remove(value);
        }
        self.keys_to_values.remove(key);
        proof {
            assert(inverse(self.keys_to_values@, self.values_to_keys@));
        }
    }

    /// Removes the key whose value is `value`, if any.
    pub fn remove_value(&mut self, value: u64)
        requires
            old(self).wf(),
        ensures
            final(self).wf(),
            forall|k: u64| #[trigger] final(self)@.contains_key(k) == (old(self)@.contains_key(k)
                && old(self)@[k] != value),
            forall|k: u64| #[trigger] final(self)@.contains_key(k) ==> final(self)@[k] == old(self)@[k],
    {
        if let Some(key) = self.values_to_keys.value(value) {
            self.keys_to_values.remove(key);
        }
        self.values_to_keys.remove(value);
        proof {
            assert(inverse(self.keys_to_values@, self.values_to_keys@));
        }
    }

    /// The value of `key`, if it has one.
    pub fn value(&self, key: u64) -> (result: Option<u64>)
        requires
            self.wf(),
        ensures
            result == if self@.contains_key(key) {
                Some(self@[key])
            } else {
                None::<u64>
            },
    {
        self.keys_to_values.value(key)
    }
}

/// After `insert(key, value)` the key reads back as the value and the value
/// reads back as the key.
pub proof fn law_indexed_insert_lookup(m: Map<u64, u64>, key: u64, value: u64)
    ensures
        insert_unique(m, key, value).contains_key(key),
        insert_unique(m, key, value)[key] == value,
        forall|k: u64|
            #[trigger] insert_unique(m, key, value).contains_key(k) && insert_unique(m, key, value)[k]
                == value ==> k == key,
{
}

} // verus!
