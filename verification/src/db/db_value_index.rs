use crate::db::db_error::{DbError, DbErrorType};
use crate::storage::{lemma_u64_round_trip, serialize_u64, u64_at, u64_bytes};
use vstd::prelude::*;

verus! {

/// Size nibble of the control byte.
pub open spec fn size_of_byte(b: u8) -> u8 {
    b & 0b00001111u8
}

/// Type nibble of the control byte.
pub open spec fn type_of_byte(b: u8) -> u8 {
    b >> 4u8
}

/// Sixteen bytes describing where a database value lives: either the value
/// itself (up to 15 bytes, its length in the low nibble of the last byte) or
/// a storage index in the first eight bytes (length nibble 0). The high
/// nibble of the last byte holds the value type.
#[derive(Clone, Copy, Debug, Default, PartialEq, Eq)]
pub struct DbValueIndex {
    value: [u8; 16],
}

impl View for DbValueIndex {
    type V = Seq<u8>;

    closed spec fn view(&self) -> Seq<u8> {
        self.value@
    }
}

impl DbValueIndex {
    pub proof fn lemma_len(&self)
        ensures
            self@.len() == 16,
    {
    }

    /// Length nibble.
    pub open spec fn spec_size(&self) -> u8 {
        size_of_byte(self@[15])
    }

    /// Type nibble.
    pub open spec fn spec_type(&self) -> u8 {
        type_of_byte(self@[15])
    }

    /// Storage index held in the first eight bytes.
    pub open spec fn spec_index(&self) -> u64 {
        u64_at(self@)
    }

    /// The inline value bytes.
    pub open spec fn spec_value(&self) -> Seq<u8> {
        self@.subrange(0, self.spec_size() as int)
    }

    /// Whether the index holds the value inline.
    pub open spec fn spec_is_value(&self) -> bool {
        self.spec_size() != 0 || self.spec_index() == 0
    }

    /// An index of sixteen zero bytes.
    pub fn new() -> (result: Self)
        ensures
            result@ == Seq::new(16, |_i: int| 0u8),
    {
        let result = Self { value: [0u8, 0, 0, 0, 0, 0, 0, 0, 0, 0, 0, 0, 0, 0, 0, 0] };
        assert(result@ =~= Seq::new(16, |_i: int| 0u8));
        result
    }

    /// The raw sixteen bytes.
    pub fn data(&self) -> (result: [u8; 16])
        ensures
            result@ == self@,
    {
        self.value
    }

    /// The value type (high nibble of the last byte).
    pub fn get_type(&self) -> (result: u8)
        ensures
            result == self.spec_type(),
    {
        self.value[15] >> 4u8
    }

    /// The storage index held in the first eight bytes.
    pub fn index(&self) -> (result: u64)
        ensures
            result == self.spec_index(),
    {
        let bytes = &self.value[0..8];
        assert(bytes@ == self@.subrange(0, 8));
        vstd::bytes::u64_from_le_bytes(bytes)
    }

    /// Whether the value is stored inline: a non-zero length, or a zero index.
    pub fn is_value(&self) -> (result: bool)
        ensures
            result == self.spec_is_value(),
    {
        self.size() != 0 || self.index() == 0
    }

    /// Sets the type nibble to the low four bits of `value`, keeping the length.
    pub fn set_type(&mut self, value: u8)
        ensures
            final(self)@ == old(self)@.update(15, ((value << 4u8) | old(self).spec_size()) as u8),
    {
        let v = (value << 4u8) | self.size();
        self.value[15] = v;
    }

    /// Stores `index` in the first eight bytes and marks the length as zero;
    /// the type nibble and bytes 8..15 are kept.
    pub fn set_index(&mut self, index: u64)
        ensures
            final(self)@.subrange(0, 8) == u64_bytes(index),
            final(self)@.subrange(8, 15) == old(self)@.subrange(8, 15),
            final(self)@[15] == old(self)@[15] & 0b11110000u8,
            final(self)@.len() == 16,
    {
        let ghost b = self.value[15];
        self.set_size(0);
        assert((b & 0b11110000u8) | 0u8 == b & 0b11110000u8) by (bit_vector);
        let bytes = serialize_u64(index);
        let mut i: usize = 0;
        while i < 8
            invariant
                i <= 8,
                bytes@ == u64_bytes(index),
                bytes@.len() == 8,
                self@.len() == 16,
                forall|j: int| 0 <= j < i ==> self@[j] == bytes@[j],
                forall|j: int| 8 <= j < 15 ==> self@[j] == old(self)@[j],
                self@[15] == old(self)@[15] & 0b11110000u8,
            decreases 8 - i,
        {
            self.value[i] = bytes[i];
            i += 1;
        }
        assert(self@.subrange(0, 8) =~= u64_bytes(index));
        assert(self@.subrange(8, 15) =~= old(self)@.subrange(8, 15));
    }

    /// Stores `value` inline when it has at most 15 bytes and returns whether it did.
    /// The type nibble is kept; the bytes past the value are left as they were.
    pub fn set_value(&mut self, value: &[u8]) -> (result: bool)
        ensures
            result == (value@.len() <= 15),
            !result ==> final(self)@ == old(self)@,
            result ==> final(self)@.subrange(0, value@.len() as int) == value@,
            result ==> final(self)@.subrange(value@.len() as int, 15) == old(self)@.subrange(
                value@.len() as int,
                15,
            ),
            result ==> final(self)@[15] == ((old(self)@[15] & 0b11110000u8) | value@.len() as u8),
            final(self)@.len() == 16,
    {
        if value.len() > 15 {
            return false;
        }
        self.set_size(value.len() as u8);
        let mut i: usize = 0;
        while i < value.len()
            invariant
                i <= value@.len() <= 15,
                self@.len() == 16,
                forall|j: int| 0 <= j < i ==> self@[j] == value@[j],
                forall|j: int| i <= j < 15 ==> self@[j] == old(self)@[j],
                self@[15] == ((old(self)@[15] & 0b11110000u8) | value@.len() as u8),
            decreases value@.len() - i,
        {
            self.value[i] = value[i];
            i += 1;
        }
        assert(self@.subrange(0, value@.len() as int) =~= value@);
        assert(self@.subrange(value@.len() as int, 15) =~= old(self)@.subrange(
            value@.len() as int,
            15,
        ));
        true
    }

    /// Length of the inline value (low nibble of the last byte).
    pub fn size(&self) -> (result: u8)
        ensures
            result == self.spec_size(),
            result <= 15,
    {
        let b = self.value[15];
        assert(b & 0b00001111u8 <= 15) by (bit_vector);
        b & 0b00001111u8
    }

    /// The inline value bytes.
    pub fn value(&self) -> (result: &[u8])
        ensures
            result@ == self.spec_value(),
    {
        let pos = self.size();
        &self.value[0..(pos as usize)]
    }

    fn set_size(&mut self, size: u8)
        requires
            size <= 15,
        ensures
            final(self)@ == old(self)@.update(15, ((old(self)@[15] & 0b11110000u8) | size) as u8),
    {
        let b = self.value[15];
        let v = (size & 0b00001111u8) | (b & 0b11110000u8);
        assert((size & 0b00001111u8) | (b & 0b11110000u8) == (b & 0b11110000u8) | size)
            by (bit_vector)
            requires
                size <= 15,
        ;
        self.value[15] = v;
    }

    /// The sixteen bytes of the index.
    pub fn serialize(&self) -> (result: Vec<u8>)
        ensures
            result@ == self@,
    {
        let mut out: Vec<u8> = Vec::with_capacity(16);
        let mut i: usize = 0;
        while i < 16
            invariant
                i <= 16,
                self@.len() == 16,
                out@ == self@.subrange(0, i as int),
            decreases 16 - i,
        {
            out.push(self.value[i]);
            assert(out@ =~= self@.subrange(0, i as int + 1));
            i += 1;
        }
        assert(self@.subrange(0, 16) =~= self@);
        out
    }

    /// Reads an index from the first sixteen bytes of `bytes`.
    pub fn deserialize(bytes: &[u8]) -> (result: Result<Self, DbError>)
        ensures
            bytes@.len() >= 16 <==> result is Ok,
            result matches Ok(index) ==> index@ == bytes@.subrange(0, 16),
            result matches Err(e) ==> e.description@
                == "DbValueIndex deserialization error: out of bounds"@,
    {
        if bytes.len() < 16 {
            return Err(
                DbError::serialization(
                    DbErrorType::NotEnoughData,
                    "DbValueIndex deserialization error: out of bounds",
                ),
            );
        }
        let mut index = Self::new();
        let mut i: usize = 0;
        while i < 16
            invariant
                i <= 16,
                16 <= bytes@.len(),
                index@.len() == 16,
                forall|j: int| 0 <= j < i ==> index@[j] == bytes@[j],
            decreases 16 - i,
        {
            index.value[i] = bytes[i];
            i += 1;
        }
        assert(index@ =~= bytes@.subrange(0, 16));
        Ok(index)
    }

    /// Number of bytes of a serialized index.
    pub fn serialized_size(&self) -> (result: u64)
        ensures
            result == 16,
    {
        16
    }

    /// Number of bytes of a serialized index.
    pub fn serialized_size_static() -> (result: u64)
        ensures
            result == 16,
    {
        16
    }
}

/// Writing a storage index and reading it back gives that index, and the
/// index is then not an inline value unless it is zero.
pub proof fn law_index_round_trip(before: DbValueIndex, after: DbValueIndex, index: u64)
    requires
        after@.subrange(0, 8) == u64_bytes(index),
        after@[15] == before@[15] & 0b11110000u8,
    ensures
        after.spec_index() == index,
        after.spec_size() == 0,
        after.spec_is_value() == (index == 0),
        after.spec_type() == before.spec_type(),
{
    lemma_u64_round_trip(index);
    assert(u64_bytes(index).subrange(0, 8) =~= u64_bytes(index));
    let b = before@[15];
    assert((b & 0b11110000u8) & 0b00001111u8 == 0u8) by (bit_vector);
    assert((b & 0b11110000u8) >> 4u8 == b >> 4u8) by (bit_vector);
}

/// Storing an inline value and reading it back gives that value with its
/// length, keeps the type, and makes the index an inline value whenever the
/// value is not empty.
pub proof fn law_value_round_trip(before: DbValueIndex, after: DbValueIndex, value: Seq<u8>)
    requires
        value.len() <= 15,
        after@.len() == 16,
        after@.subrange(0, value.len() as int) == value,
        after@[15] == ((before@[15] & 0b11110000u8) | value.len() as u8),
    ensures
        after.spec_size() == value.len(),
        after.spec_value() == value,
        after.spec_type() == before.spec_type(),
        value.len() > 0 ==> after.spec_is_value(),
{
    let b = before@[15];
    let n = value.len() as u8;
    assert(((b & 0b11110000u8) | n) & 0b00001111u8 == n) by (bit_vector)
        requires
            n <= 15,
    ;
    assert(((b & 0b11110000u8) | n) >> 4u8 == b >> 4u8) by (bit_vector)
        requires
            n <= 15,
    ;
}

/// Setting the type keeps the length and the bytes, and the type reads back
/// as the low four bits of what was set.
pub proof fn law_type_round_trip(before: DbValueIndex, after: DbValueIndex, ty: u8)
    requires
        after@ == before@.update(15, ((ty << 4u8) | before.spec_size()) as u8),
    ensures
        after.spec_type() == ty & 0b00001111u8,
        after.spec_size() == before.spec_size(),
        after.spec_value() == before.spec_value(),
{
    before.lemma_len();
    let b = before@[15];
    assert(((ty << 4u8) | (b & 0b00001111u8)) >> 4u8 == ty & 0b00001111u8) by (bit_vector);
    assert(((ty << 4u8) | (b & 0b00001111u8)) & 0b00001111u8 == b & 0b00001111u8)
        by (bit_vector);
    assert(b & 0b00001111u8 <= 15) by (bit_vector);
    assert(after.spec_value() =~= before.spec_value());
}

/// Serializing and deserializing an index gives the same bytes.
pub proof fn law_serialize_round_trip(index: DbValueIndex, bytes: Seq<u8>)
    requires
        bytes == index@,
    ensures
        bytes.len() >= 16,
        bytes.subrange(0, 16) == index@,
{
    index.lemma_len();
    assert(bytes.subrange(0, 16) =~= index@);
}

} // verus!
