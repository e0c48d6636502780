use crate::db::db_error::{DbError, DbErrorType};
use vstd::bytes::{
    lemma_auto_spec_u64_to_from_le_bytes, spec_u64_from_le_bytes, spec_u64_to_le_bytes,
    u64_from_le_bytes, u64_to_le_bytes,
};
use vstd::prelude::*;

verus! {

/// Number of bytes a `u64` takes when serialized.
pub const U64_SIZE: u64 = 8;

/// The bytes of `value`, least significant first.
pub open spec fn u64_bytes(value: u64) -> Seq<u8> {
    spec_u64_to_le_bytes(value)
}

/// The `u64` whose little-endian bytes start `bytes`.
pub open spec fn u64_at(bytes: Seq<u8>) -> u64 {
    spec_u64_from_le_bytes(bytes.subrange(0, 8))
}

/// Encoding then decoding a `u64` gives it back, and the encoding is eight bytes long.
pub proof fn lemma_u64_round_trip(value: u64)
    ensures
        u64_bytes(value).len() == 8,
        u64_at(u64_bytes(value)) == value,
{
    lemma_auto_spec_u64_to_from_le_bytes();
    assert(u64_bytes(value).subrange(0, 8) =~= u64_bytes(value));
}

/// Serializes `value` as eight little-endian bytes.
pub fn serialize_u64(value: u64) -> (result: Vec<u8>)
    ensures
        result@ == u64_bytes(value),
        result@.len() == 8,
{
    proof {
        lemma_auto_spec_u64_to_from_le_bytes();
    }
    u64_to_le_bytes(value)
}

/// Reads a `u64` from the first eight bytes of `bytes`.
pub fn deserialize_u64(bytes: &[u8]) -> (result: Result<u64, DbError>)
    ensures
        bytes@.len() >= 8 <==> result is Ok,
        result matches Ok(v) ==> v == u64_at(bytes@),
        result matches Err(e) ==> e.description@ == "u64 deserialization error: out of bounds"@,
{
    if bytes.len() < 8 {
        return Err(
            DbError::serialization(
                DbErrorType::NotEnoughData,
                "u64 deserialization error: out of bounds",
            ),
        );
    }
    let head = &bytes[0..8];
    assert(head@ == bytes@.subrange(0, 8));
    Ok(u64_from_le_bytes(head))
}

/// Position of a value in the database storage.
#[derive(Clone, Copy, Debug, Default, PartialEq, Eq, Structural)]
pub struct StorageIndex(pub u64);

impl StorageIndex {
    pub fn from(value: u64) -> (result: Self)
        ensures
            result.0 == value,
    {
        StorageIndex(value)
    }

    pub fn as_u64(&self) -> (result: u64)
        ensures
            result == self.0,
    {
        self.0
    }

    /// Number of bytes of the serialized index.
    pub fn serialized_size_static() -> (result: u64)
        ensures
            result == 8,
    {
        U64_SIZE
    }

    /// The index as eight little-endian bytes.
    pub fn serialize(&self) -> (result: Vec<u8>)
        ensures
            result@ == u64_bytes(self.0),
            result@.len() == 8,
    {
        serialize_u64(self.0)
    }

    /// Reads an index from the first eight bytes of `bytes`.
    pub fn deserialize(bytes: &[u8]) -> (result: Result<Self, DbError>)
        ensures
            bytes@.len() >= 8 <==> result is Ok,
            result matches Ok(v) ==> v.0 == u64_at(bytes@),
    {
        match deserialize_u64(bytes) {
            Ok(v) => Ok(StorageIndex(v)),
            Err(e) => Err(e),
        }
    }
}

} // verus!
