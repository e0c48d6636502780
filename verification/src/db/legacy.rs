use crate::collections::multi_map::{max_capacity, MultiMapImpl};
use crate::db::db_error::{DbError, DbErrorType};
use crate::db::{field_at, lemma_fields_round_trip, DbStorageIndex, CURRENT_VERSION};
use crate::storage::{lemma_u64_round_trip, u64_bytes, StorageIndex};
use vstd::prelude::*;

verus! {

/// The root record written by databases created before layout versions
/// existed: no version field, otherwise the same locations.
#[derive(Clone, Copy, Debug, Default)]
pub struct DbStorageIndexLegacy {
    pub graph: StorageIndex,
    pub aliases: (StorageIndex, StorageIndex),
    pub indexes: StorageIndex,
    pub values: StorageIndex,
}

impl DbStorageIndexLegacy {
    /// The five fields in the order they are serialized.
    pub open spec fn spec_fields(&self) -> Seq<u64> {
        seq![self.graph.0, self.aliases.0.0, self.aliases.1.0, self.indexes.0, self.values.0]
    }

    /// The serialized form: each field as eight little-endian bytes.
    pub open spec fn spec_bytes(&self) -> Seq<u8> {
        u64_bytes(self.graph.0) + u64_bytes(self.aliases.0.0) + u64_bytes(self.aliases.1.0)
            + u64_bytes(self.indexes.0) + u64_bytes(self.values.0)
    }

    pub fn serialize(&self) -> (result: Vec<u8>)
        ensures
            result@ == self.spec_bytes(),
    {
        let mut bytes = self.graph.serialize();
        bytes.append(&mut self.aliases.0.serialize());
        bytes.append(&mut self.aliases.1.serialize());
        bytes.append(&mut self.indexes.serialize());
        bytes.append(&mut self.values.serialize());
        bytes
    }

    pub fn deserialize(bytes: &[u8]) -> (result: Result<Self, DbError>)
        ensures
            bytes@.len() >= 40 <==> result is Ok,
            result matches Ok(v) ==> forall|k: int|
                0 <= k < 5 ==> #[trigger] v.spec_fields()[k] == field_at(bytes@, k),
    {
        let graph = StorageIndex::deserialize(bytes)?;
        let aliases_1 = StorageIndex::deserialize(&bytes[8..bytes.len()])?;
        let aliases_2 = StorageIndex::deserialize(&bytes[16..bytes.len()])?;
        let indexes = StorageIndex::deserialize(&bytes[24..bytes.len()])?;
        let values = StorageIndex::deserialize(&bytes[32..bytes.len()])?;
        let result = Self { graph, aliases: (aliases_1, aliases_2), indexes, values };
        proof {
            assert(bytes@.subrange(0, bytes@.len() as int) =~= bytes@);
            assert(field_at(bytes@, 0) == graph.0);
            assert(field_at(bytes@, 1) == aliases_1.0);
            assert(field_at(bytes@, 2) == aliases_2.0);
            assert(field_at(bytes@, 3) == indexes.0);
            assert(field_at(bytes@, 4) == values.0);
        }
        Ok(result)
    }

    pub fn serialized_size(&self) -> (result: u64)
        ensures
            result == 40,
    {
        40
    }
}

/// Deserializing a serialized legacy record gives back every field.
pub proof fn law_legacy_round_trip(index: DbStorageIndexLegacy)
    ensures
        index.spec_bytes().len() == 40,
        forall|k: int|
            0 <= k < 5 ==> #[trigger] field_at(index.spec_bytes(), k) == index.spec_fields()[k],
{
    let f = index.spec_fields();
    let b = index.spec_bytes();
    assert forall|k: int| 0 <= k < 5 implies u64_bytes(#[trigger] f[k]).len() == 8 by {
        lemma_u64_round_trip(f[k]);
    }
    assert(f[0] == index.graph.0);
    assert(f[1] == index.aliases.0.0);
    assert(f[2] == index.aliases.1.0);
    assert(f[3] == index.indexes.0);
    assert(f[4] == index.values.0);
    assert(b.subrange(0, 8) =~= u64_bytes(f[0]));
    assert(b.subrange(8, 16) =~= u64_bytes(f[1]));
    assert(b.subrange(16, 24) =~= u64_bytes(f[2]));
    assert(b.subrange(24, 32) =~= u64_bytes(f[3]));
    assert(b.subrange(32, 40) =~= u64_bytes(f[4]));
    assert forall|k: int| 0 <= k < f.len() implies #[trigger] b.subrange(8 * k, 8 * k + 8)
        == u64_bytes(f[k]) by {
        if k == 0 {
        } else if k == 1 {
        } else if k == 2 {
        } else if k == 3 {
        } else {
        }
    }
    lemma_fields_round_trip(f, b);
}

/// The root record of the current layout for a legacy database whose
/// key-values were moved to `values`: the graph, aliases and indexes stay
/// where they were and the version is set to the current one.
fn current_root(legacy_index: &DbStorageIndexLegacy, values: StorageIndex) -> (result:
    DbStorageIndex)
    ensures
        result.version == CURRENT_VERSION,
        result.graph == legacy_index.graph,
        result.aliases == legacy_index.aliases,
        result.indexes == legacy_index.indexes,
        result.values == values,
{
    DbStorageIndex {
        version: CURRENT_VERSION,
        graph: legacy_index.graph,
        aliases: legacy_index.aliases,
        indexes: legacy_index.indexes,
        values,
    }
}

/// What converting a legacy database produces: the new root record, the
/// bytes that replace the legacy record at the root location, and the values
/// store holding every key-value of the legacy one.
pub struct Migration {
    pub root: DbStorageIndex,
    pub root_bytes: Vec<u8>,
    pub values: MultiMapImpl,
}

/// The description of the error when the root location holds nothing.
pub open spec fn missing_root_text() -> Seq<char> {
    "FileStorage error: index (1) not found"@
}

/// Converts a database of the legacy layout. `stored_root` is what the root
/// location holds, `legacy_values` the legacy values multimap (database id to
/// key-value) and `values_index` where the new values store is kept. Every
/// (id, key-value) entry of the legacy map is moved into a new store, which
/// replaces the legacy one, and the new root record is returned with its bytes
/// to write back. Fails before producing anything when the root location holds
/// nothing or too few bytes for a legacy record.
pub fn convert_to_current_version(
    stored_root: Option<&[u8]>,
    legacy_values: MultiMapImpl,
    values_index: StorageIndex,
) -> (result: Result<Migration, DbError>)
    requires
        legacy_values.wf(),
        legacy_values@.len() * 4 < max_capacity(),
    ensures
        result is Ok <==> (stored_root is Some && stored_root->0@.len() >= 40),
        stored_root is None ==> (result matches Err(e) && e.description@ == missing_root_text()),
        result matches Ok(m) ==> m.root.version == CURRENT_VERSION && m.root.values
            == values_index && m.root.graph.0 == field_at(stored_root->0@, 0)
            && m.root.aliases.0.0 == field_at(stored_root->0@, 1) && m.root.aliases.1.0
            == field_at(stored_root->0@, 2) && m.root.indexes.0 == field_at(stored_root->0@, 3),
        result matches Ok(m) ==> m.root_bytes@ == m.root.spec_bytes(),
        result matches Ok(m) ==> m.values.wf() && m.values@ == legacy_values@,
{
    let bytes = match stored_root {
        Some(bytes) => bytes,
        None => {
            return Err(DbError::storage(DbErrorType::NotFound, "FileStorage error: index (1) not found"));
        },
    };
    let legacy_index = match DbStorageIndexLegacy::deserialize(bytes) {
        Ok(index) => index,
        Err(e) => {
            return Err(e);
        },
    };
    let entries = legacy_values.iter();
    let mut values = MultiMapImpl::new();
    let mut i: usize = 0;
    proof {
        broadcast use vstd::seq_lib::group_to_multiset_ensures;

        assert(entries@.take(0) =~= Seq::<(u64, u64)>::empty());
        assert(values@ =~= entries@.take(0).to_multiset());
    }
    while i < entries.len()
        invariant
            values.wf(),
            i <= entries@.len(),
            entries@.to_multiset() == legacy_values@,
            legacy_values@.len() * 4 < max_capacity(),
            values@ == entries@.take(i as int).to_multiset(),
        decreases entries@.len() - i,
    {
        proof {
            broadcast use vstd::seq_lib::group_to_multiset_ensures;

            assert(values@.len() == i);
            assert(entries@.to_multiset().len() == entries@.len());
        }
        let (id, kv) = entries[i];
        values.insert(id, kv);
        proof {
            broadcast use vstd::seq_lib::group_to_multiset_ensures;

            assert(entries@.take(i + 1) =~= entries@.take(i as int).push(entries@[i as int]));
        }
        i = i + 1;
    }
    proof {
        assert(entries@.take(i as int) =~= entries@);
    }
    proof {
        assert(legacy_index.spec_fields()[0] == field_at(bytes@, 0));
        assert(legacy_index.spec_fields()[1] == field_at(bytes@, 1));
        assert(legacy_index.spec_fields()[2] == field_at(bytes@, 2));
        assert(legacy_index.spec_fields()[3] == field_at(bytes@, 3));
    }
    let root = current_root(&legacy_index, values_index);
    let root_bytes = root.serialize();
    Ok(Migration { root, root_bytes, values })
}

} // verus!
