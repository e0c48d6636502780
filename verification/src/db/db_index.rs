use crate::db::db_error::DbError;
use crate::db::db_value_index::DbValueIndex;
use crate::storage::{lemma_u64_round_trip, u64_at, u64_bytes, StorageIndex};
use vstd::prelude::*;

verus! {

/// Where an index lives in storage: the index key and the map of ids.
#[derive(Clone, Copy, Debug)]
pub struct DbIndexStorageIndex {
    pub key_index: DbValueIndex,
    pub ids_index: StorageIndex,
}

impl DbIndexStorageIndex {
    /// The serialized form: the 16 bytes of the key index, then the 8 bytes of the ids index.
    pub open spec fn spec_bytes(&self) -> Seq<u8> {
        self.key_index@ + u64_bytes(self.ids_index.0)
    }

    /// Number of bytes the serialized form takes.
    pub fn storage_len() -> (result: u64)
        ensures
            result == 24,
    {
        DbValueIndex::serialized_size_static() + StorageIndex::serialized_size_static()
    }

    /// Serializes the key index followed by the ids index.
    pub fn store(&self) -> (result: Vec<u8>)
        ensures
            result@ == self.spec_bytes(),
    {
        let mut key_index = self.key_index.serialize();
        let mut ids_index = self.ids_index.serialize();
        key_index.append(&mut ids_index);
        key_index
    }

    /// Reads the key index from the first 16 bytes and the ids index from the next 8.
    pub fn load(bytes: &[u8]) -> (result: Result<Self, DbError>)
        ensures
            bytes@.len() >= 24 <==> result is Ok,
            result matches Ok(v) ==> v.key_index@ == bytes@.subrange(0, 16) && v.ids_index.0
                == u64_at(bytes@.subrange(16, bytes@.len() as int)),
    {
        let key_index = DbValueIndex::deserialize(bytes)?;
        let ids_index = StorageIndex::deserialize(&bytes[16..bytes.len()])?;
        Ok(Self { key_index, ids_index })
    }
}

/// Loading what was stored gives back both indexes.
pub proof fn law_store_load_round_trip(index: DbIndexStorageIndex, bytes: Seq<u8>)
    requires
        bytes == index.spec_bytes(),
    ensures
        bytes.len() == 24,
        bytes.subrange(0, 16) == index.key_index@,
        u64_at(bytes.subrange(16, bytes.len() as int)) == index.ids_index.0,
{
    index.key_index.lemma_len();
    lemma_u64_round_trip(index.ids_index.0);
    assert(bytes.subrange(0, 16) =~= index.key_index@);
    assert(bytes.subrange(16, 24) =~= u64_bytes(index.ids_index.0));
}

} // verus!
