use vstd::prelude::*;

verus! {

/// Whether bit `bit` (0..8) of `byte` is set.
pub open spec fn bit_is_set(byte: u8, bit: u64) -> bool {
    byte & (1u8 << bit) != 0u8
}

/// Whether the bit for `v` is set in the packed bytes `data`
/// (byte `v / 8`, bit `v % 8`; bits beyond the data are unset).
pub open spec fn data_has(data: Seq<u8>, v: u64) -> bool {
    let byte = v / 8;
    byte < data.len() && bit_is_set(data[byte as int], v % 8)
}

proof fn lemma_or_bit(x: u8, b: u64, c: u64)
    requires
        b < 8,
        c < 8,
    ensures
        bit_is_set(x | (1u8 << b), c) == (bit_is_set(x, c) || b == c),
{
    assert((x | (1u8 << b)) & (1u8 << c) != 0u8 <==> ((x & (1u8 << c) != 0u8) || b == c))
        by (bit_vector)
        requires
            b < 8,
            c < 8,
    ;
}

proof fn lemma_clear_bit(x: u8, b: u64, c: u64)
    requires
        b < 8,
        c < 8,
    ensures
        bit_is_set(x & !(1u8 << b), c) == (bit_is_set(x, c) && b != c),
{
    assert((x & !(1u8 << b)) & (1u8 << c) != 0u8 <==> ((x & (1u8 << c) != 0u8) && b != c))
        by (bit_vector)
        requires
            b < 8,
            c < 8,
    ;
}

proof fn lemma_zero_bit(c: u64)
    requires
        c < 8,
    ensures
        !bit_is_set(0u8, c),
{
    assert(0u8 & (1u8 << c) == 0u8) by (bit_vector)
        requires
            c < 8,
    ;
}

/// A growable set of `u64` values stored as packed bits.
#[derive(Default)]
pub struct BitSet {
    data: Vec<u8>,
}

impl View for BitSet {
    type V = Set<u64>;

    closed spec fn view(&self) -> Set<u64> {
        Set::new(|v: u64| data_has(self.data@, v))
    }
}

impl BitSet {
    /// Number of bytes backing the set.
    pub closed spec fn byte_len(&self) -> nat {
        self.data@.len()
    }

    /// The byte that holds `v` is already allocated.
    pub open spec fn covers(&self, v: u64) -> bool {
        v / 8 < self.byte_len()
    }

    /// What `set(v)` does: `v` is added and its byte is allocated.
    pub open spec fn set_post(old: BitSet, new: BitSet, v: u64) -> bool {
        &&& new@ == old@.insert(v)
        &&& new.covers(v)
        &&& forall|w: u64| old.covers(w) ==> new.covers(w)
    }

    /// What `unset(v)` does: `v` is no longer in the set, every other value
    /// stays, and the storage keeps its size.
    pub open spec fn unset_post(old: BitSet, new: BitSet, v: u64) -> bool {
        &&& new@ == old@.remove(v)
        &&& forall|w: u64| new.covers(w) == old.covers(w)
    }

    /// Removes every value.
    pub fn clear(&mut self)
        ensures
            final(self)@ == Set::<u64>::empty(),
            final(self).byte_len() == 0,
    {
        self.data.clear();
        assert(self@ =~= Set::<u64>::empty());
    }

    /// Adds `value` to the set, growing the storage when needed.
    pub fn set(&mut self, value: u64)
        requires
            value / 8 < usize::MAX,
        ensures
            Self::set_post(*old(self), *final(self), value),
    {
        let byte_index = (value / 8) as usize;
        let bit_index = (value % 8) as usize;
        let ghost old_data = self.data@;

        if self.data.len() <= byte_index {
            self.data.resize(byte_index + 1, 0u8);
        }
        let ghost mid = self.data@;
        assert forall|i: int| 0 <= i < mid.len() implies mid[i] == if i < old_data.len() {
            old_data[i]
        } else {
            0u8
        } by {
            if i < old_data.len() {
                assert(mid.subrange(0, old_data.len() as int)[i] == mid[i]);
            }
        }

        let b = self.data[byte_index];
        self.data.set(byte_index, b | (1u8 << bit_index));

        proof {
            assert forall|w: u64| #[trigger] data_has(self.data@, w) == (data_has(old_data, w) || w
                == value) by {
                let wb = w / 8;
                if wb < mid.len() {
                    if wb < old_data.len() {
                        if wb == byte_index {
                            lemma_or_bit(b, (value % 8), w % 8);
                        }
                    } else {
                        lemma_zero_bit(w % 8);
                        if wb == byte_index {
                            lemma_or_bit(b, (value % 8), w % 8);
                        }
                    }
                }
                if w == value {
                    lemma_or_bit(b, (value % 8), w % 8);
                }
            }
            assert(self@ =~= old(self)@.insert(value));
        }
    }

    /// Creates an empty set.
    pub fn new() -> (result: Self)
        ensures
            result@ == Set::<u64>::empty(),
            result.byte_len() == 0,
    {
        let result = Self { data: Vec::new() };
        assert(result@ =~= Set::<u64>::empty());
        result
    }

    /// Creates an empty set with room reserved for values below `capacity`.
    pub fn with_capacity(capacity: u64) -> (result: Self)
        ensures
            result@ == Set::<u64>::empty(),
            result.byte_len() == 0,
    {
        let result = Self { data: Vec::with_capacity((capacity / 8) as usize) };
        assert(result@ =~= Set::<u64>::empty());
        result
    }

    /// Removes `value` from the set; a value that is not in the set stays
    /// out of it.
    pub fn unset(&mut self, value: u64)
        ensures
            Self::unset_post(*old(self), *final(self), value),
    {
        if value / 8 < self.data.len() as u64 {
            let byte_index = (value / 8) as usize;
            let bit_index = (value % 8) as usize;
            let b = self.data[byte_index];
            self.data.set(byte_index, b & !(1u8 << bit_index));
            proof {
                assert forall|w: u64| #[trigger] data_has(self.data@, w) == (data_has(
                    old(self).data@,
                    w,
                ) && w != value) by {
                    if w / 8 == byte_index {
                        lemma_clear_bit(b, value % 8, w % 8);
                        if w % 8 == value % 8 {
                            assert(w == value);
                        }
                    }
                }
                assert(self@ =~= old(self)@.remove(value));
            }
        } else {
            assert(self@ =~= old(self)@.remove(value));
        }
    }

    /// Whether `value` is in the set.
    pub fn value(&self, value: u64) -> (result: bool)
        ensures
            result == self@.contains(value),
    {
        if value / 8 < self.data.len() as u64 {
            let byte_index = (value / 8) as usize;
            let bit_index = (value % 8) as usize;
            return self.data[byte_index] & (1u8 << bit_index) != 0u8;
        }
        false
    }
}

/// A value that was just set reads as set, and every other value reads as before.
pub proof fn law_value_after_set(before: BitSet, after: BitSet, v: u64, w: u64)
    requires
        BitSet::set_post(before, after, v),
    ensures
        after@.contains(v),
        w != v ==> after@.contains(w) == before@.contains(w),
{
}

/// Unsetting a value right after setting it removes it and leaves every
/// other value as it was before the two calls.
pub proof fn law_unset_after_set(before: BitSet, mid: BitSet, after: BitSet, v: u64)
    requires
        BitSet::set_post(before, mid, v),
        BitSet::unset_post(mid, after, v),
    ensures
        !after@.contains(v),
        after@ == before@.remove(v),
{
    assert(after@ =~= before@.remove(v));
}

} // verus!
