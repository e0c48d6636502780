pub mod db_conditions;
pub mod db_config;
pub mod db_error;
pub mod db_index;
pub mod db_search_handlers;
pub mod db_type;
pub mod db_value_index;
pub mod legacy;

use crate::db::db_error::DbError;
use crate::db::legacy::DbStorageIndexLegacy;
use crate::storage::{lemma_u64_round_trip, u64_at, u64_bytes, StorageIndex};
use vstd::prelude::*;

verus! {

/// Version of the storage layout written by this library.
pub const CURRENT_VERSION: u64 = 1;

/// The root record of a database: layout version and where the graph, the
/// aliases, the indexes and the values live.
#[derive(Clone, Copy, Debug, Default)]
pub struct DbStorageIndex {
    pub version: u64,
    pub graph: StorageIndex,
    pub aliases: (StorageIndex, StorageIndex),
    pub indexes: StorageIndex,
    pub values: StorageIndex,
}

/// The eight bytes at position `8 * k` of `bytes`, read as a `u64`.
pub open spec fn field_at(bytes: Seq<u8>, k: int) -> u64 {
    u64_at(bytes.subrange(8 * k, bytes.len() as int))
}

/// Each field written in turn is read back from its own eight bytes.
pub proof fn lemma_fields_round_trip(fields: Seq<u64>, bytes: Seq<u8>)
    requires
        bytes.len() == 8 * fields.len(),
        forall|k: int|
            0 <= k < fields.len() ==> #[trigger] bytes.subrange(8 * k, 8 * k + 8) == u64_bytes(
                fields[k],
            ),
    ensures
        forall|k: int| 0 <= k < fields.len() ==> #[trigger] field_at(bytes, k) == fields[k],
{
    assert forall|k: int| 0 <= k < fields.len() implies #[trigger] field_at(bytes, k)
        == fields[k] by {
        lemma_u64_round_trip(fields[k]);
        assert(bytes.subrange(8 * k, bytes.len() as int).subrange(0, 8) =~= bytes.subrange(
            8 * k,
            8 * k + 8,
        ));
        assert(u64_bytes(fields[k]).subrange(0, 8) =~= u64_bytes(fields[k]));
    }
}

impl DbStorageIndex {
    /// The six fields in the order they are serialized.
    pub open spec fn spec_fields(&self) -> Seq<u64> {
        seq![
            self.version,
            self.graph.0,
            self.aliases.0.0,
            self.aliases.1.0,
            self.indexes.0,
            self.values.0,
        ]
    }

    /// The serialized form: each field as eight little-endian bytes.
    pub open spec fn spec_bytes(&self) -> Seq<u8> {
        u64_bytes(self.version) + u64_bytes(self.graph.0) + u64_bytes(self.aliases.0.0)
            + u64_bytes(self.aliases.1.0) + u64_bytes(self.indexes.0) + u64_bytes(self.values.0)
    }

    pub fn serialize(&self) -> (result: Vec<u8>)
        ensures
            result@ == self.spec_bytes(),
    {
        let mut bytes = crate::storage::serialize_u64(self.version);
        bytes.append(&mut self.graph.serialize());
        bytes.append(&mut self.aliases.0.serialize());
        bytes.append(&mut self.aliases.1.serialize());
        bytes.append(&mut self.indexes.serialize());
        bytes.append(&mut self.values.serialize());
        bytes
    }

    pub fn deserialize(bytes: &[u8]) -> (result: Result<Self, DbError>)
        ensures
            bytes@.len() >= 48 <==> result is Ok,
            result matches Ok(v) ==> forall|k: int|
                0 <= k < 6 ==> #[trigger] v.spec_fields()[k] == field_at(bytes@, k),
    {
        let version = crate::storage::deserialize_u64(bytes)?;
        let graph = StorageIndex::deserialize(&bytes[8..bytes.len()])?;
        let aliases_1 = StorageIndex::deserialize(&bytes[16..bytes.len()])?;
        let aliases_2 = StorageIndex::deserialize(&bytes[24..bytes.len()])?;
        let indexes = StorageIndex::deserialize(&bytes[32..bytes.len()])?;
        let values = StorageIndex::deserialize(&bytes[40..bytes.len()])?;
        let result = Self { version, graph, aliases: (aliases_1, aliases_2), indexes, values };
        proof {
            assert(bytes@.subrange(0, bytes@.len() as int) =~= bytes@);
            assert(field_at(bytes@, 0) == version);
            assert(field_at(bytes@, 1) == graph.0);
            assert(field_at(bytes@, 2) == aliases_1.0);
            assert(field_at(bytes@, 3) == aliases_2.0);
            assert(field_at(bytes@, 4) == indexes.0);
            assert(field_at(bytes@, 5) == values.0);
        }
        Ok(result)
    }

    pub fn serialized_size(&self) -> (result: u64)
        ensures
            result == 48,
    {
        48
    }
}

/// Deserializing a serialized root record gives back every field.
pub proof fn law_storage_index_round_trip(index: DbStorageIndex)
    ensures
        index.spec_bytes().len() == 48,
        forall|k: int|
            0 <= k < 6 ==> #[trigger] field_at(index.spec_bytes(), k) == index.spec_fields()[k],
{
    let f = index.spec_fields();
    let b = index.spec_bytes();
    assert forall|k: int| 0 <= k < 6 implies u64_bytes(#[trigger] f[k]).len() == 8 by {
        lemma_u64_round_trip(f[k]);
    }
    assert(f[0] == index.version);
    assert(f[1] == index.graph.0);
    assert(f[2] == index.aliases.0.0);
    assert(f[3] == index.aliases.1.0);
    assert(f[4] == index.indexes.0);
    assert(f[5] == index.values.0);
    assert(b.subrange(0, 8) =~= u64_bytes(f[0]));
    assert(b.subrange(8, 16) =~= u64_bytes(f[1]));
    assert(b.subrange(16, 24) =~= u64_bytes(f[2]));
    assert(b.subrange(24, 32) =~= u64_bytes(f[3]));
    assert(b.subrange(32, 40) =~= u64_bytes(f[4]));
    assert(b.subrange(40, 48) =~= u64_bytes(f[5]));
    assert forall|k: int| 0 <= k < f.len() implies #[trigger] b.subrange(8 * k, 8 * k + 8)
        == u64_bytes(f[k]) by {
        if k == 0 {
        } else if k == 1 {
        } else if k == 2 {
        } else if k == 3 {
        } else if k == 4 {
        } else {
        }
    }
    lemma_fields_round_trip(f, b);
}

/// How a database is opened, decided from what its root location holds.
pub enum OpenAction {
    /// The storage is empty: create the graph, aliases, indexes and values
    /// and write a root record of the current layout.
    Create,
    /// The root record is of the current layout: load what it names.
    Load(DbStorageIndex),
    /// The root record is of the legacy layout: convert the database first.
    Convert(DbStorageIndexLegacy),
}

/// Decides how to open a database whose root location holds `stored_root`
/// (`None` when it holds nothing): create it, load it, or convert a legacy
/// one; fails when the root location holds too few bytes for either record.
pub fn open_action(stored_root: Option<&[u8]>) -> (result: Result<OpenAction, DbError>)
    ensures
        stored_root is None <==> result matches Ok(OpenAction::Create),
        result matches Ok(OpenAction::Load(r)) ==> (stored_root is Some && stored_root->0@.len()
            >= 48 && forall|k: int|
            0 <= k < 6 ==> #[trigger] r.spec_fields()[k] == field_at(stored_root->0@, k)),
        result matches Ok(OpenAction::Convert(l)) ==> (stored_root is Some && 40
            <= stored_root->0@.len() < 48 && forall|k: int|
            0 <= k < 5 ==> #[trigger] l.spec_fields()[k] == field_at(stored_root->0@, k)),
        stored_root is Some && stored_root->0@.len() >= 48 ==> result matches Ok(OpenAction::Load(_)),
        stored_root is Some && 40 <= stored_root->0@.len() < 48 ==> result matches Ok(
            OpenAction::Convert(_),
        ),
        result is Err <==> (stored_root is Some && stored_root->0@.len() < 40),
{
    match stored_root {
        None => Ok(OpenAction::Create),
        Some(bytes) => match DbStorageIndex::deserialize(bytes) {
            Ok(index) => Ok(OpenAction::Load(index)),
            Err(_) => match DbStorageIndexLegacy::deserialize(bytes) {
                Ok(legacy) => Ok(OpenAction::Convert(legacy)),
                Err(e) => Err(e),
            },
        },
    }
}

} // verus!
