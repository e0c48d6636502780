use crate::db::db_error::{DbError, DbErrorCategory, DbErrorType};
use std::marker::PhantomData;
use vstd::prelude::*;
use vstd::string::StringExecFns;

verus! {

/// The smallest number of slots a vector allocates when it first grows.
pub const MIN_VEC_CAPACITY: u64 = 64;

/// A value a vector can hold: it can be copied out of the vector unchanged.
pub trait VecValue: Sized {
    fn duplicate(&self) -> (result: Self)
        ensures
            result == *self,
    ;
}

impl VecValue for u64 {
    fn duplicate(&self) -> (result: Self) {
        *self
    }
}

impl VecValue for i64 {
    fn duplicate(&self) -> (result: Self) {
        *self
    }
}

impl VecValue for String {
    fn duplicate(&self) -> (result: Self) {
        self.clone()
    }
}

/// `values` cut to `new_len` values, or extended to it with copies of `value`.
pub open spec fn resized<T>(values: Seq<T>, new_len: nat, value: T) -> Seq<T> {
    Seq::new(new_len, |i: int| if i < values.len() { values[i] } else { value })
}

/// `values` with the values at `i` and `j` exchanged.
pub open spec fn swapped<T>(values: Seq<T>, i: int, j: int) -> Seq<T> {
    values.update(i, values[j]).update(j, values[i])
}

/// The decimal digits of `n`, most significant first, as `u64`'s `Display`
/// writes them.
pub open spec fn decimal(n: nat) -> Seq<char>
    decreases n,
{
    let digit = (48 + n % 10) as char;
    if n < 10 {
        seq![digit]
    } else {
        decimal(n / 10).push(digit)
    }
}

/// The description of an access at `index` into a vector of `len` values.
pub open spec fn out_of_bounds_text(index: nat, len: nat) -> Seq<char> {
    "Index ("@ + decimal(index) + ") out of bounds ("@ + decimal(len) + ")"@
}

/// `error` is the one a vector of `len` values reports for an access at `index`.
pub open spec fn is_out_of_bounds(error: DbError, index: nat, len: nat) -> bool {
    &&& error.description@ == out_of_bounds_text(index, len)
    &&& error.category == DbErrorCategory::Collections
    &&& error.ty == DbErrorType::OutOfBounds
    &&& error.cause is None
}

/// The decimal digit `d` as a one-character string.
fn digit_text(d: u64) -> (result: &'static str)
    requires
        d < 10,
    ensures
        result@ == seq![(48 + d) as char],
{
    proof {
        reveal_strlit("0");
        reveal_strlit("1");
        reveal_strlit("2");
        reveal_strlit("3");
        reveal_strlit("4");
        reveal_strlit("5");
        reveal_strlit("6");
        reveal_strlit("7");
        reveal_strlit("8");
        reveal_strlit("9");
    }
    if d == 0 {
        "0"
    } else if d == 1 {
        "1"
    } else if d == 2 {
        "2"
    } else if d == 3 {
        "3"
    } else if d == 4 {
        "4"
    } else if d == 5 {
        "5"
    } else if d == 6 {
        "6"
    } else if d == 7 {
        "7"
    } else if d == 8 {
        "8"
    } else {
        "9"
    }
}

/// Appends the decimal digits of `n` to `text`.
fn append_decimal(text: &mut String, n: u64)
    ensures
        final(text)@ == old(text)@ + decimal(n as nat),
    decreases n,
{
    if n >= 10 {
        append_decimal(text, n / 10);
    }
    text.append(digit_text(n % 10));
    proof {
        if n < 10 {
            assert(old(text)@ + decimal(n as nat) =~= old(text)@ + seq![(48 + n % 10) as char]);
        } else {
            assert(decimal(n as nat) == decimal((n / 10) as nat).push((48 + n % 10) as char));
            assert(final(text)@ =~= old(text)@ + decimal(n as nat));
        }
    }
}

/// The description of an out of bounds access, with both numbers in
/// decimal.
fn out_of_bounds_description(index: u64, len: u64) -> (result: String)
    ensures
        result@ == out_of_bounds_text(index as nat, len as nat),
{
    let mut text = String::from_str("Index (");
    append_decimal(&mut text, index);
    text.append(") out of bounds (");
    append_decimal(&mut text, len);
    text.append(")");
    text
}

/// Where the values of a vector are kept. A vector asks it for room, for its
/// values and for changes to them; the store may fail, in which case the
/// vector passes the error on.
pub trait VecData<T: VecValue>: Sized {
    /// The stored values, in order.
    spec fn spec_values(&self) -> Seq<T>;

    /// The number of values there is room for.
    spec fn spec_capacity(&self) -> u64;

    /// The store is usable.
    spec fn wf(&self) -> bool;

    /// The store answers every request within its bounds: nothing besides
    /// the values and the room asked for (such as a failing device) makes
    /// one of its operations fail.
    spec fn spec_reliable(&self) -> bool;

    /// The most values the store can make room for.
    spec fn spec_room_limit(&self) -> nat;

    /// A usable store holds no more values than it has room for, and has no
    /// more room than it can provide.
    proof fn lemma_within_capacity(&self)
        requires
            self.wf(),
        ensures
            self.spec_values().len() <= self.spec_capacity(),
            self.spec_capacity() <= self.spec_room_limit(),
    ;

    fn capacity(&self) -> (result: u64)
        requires
            self.wf(),
        ensures
            result == self.spec_capacity(),
    ;

    fn len(&self) -> (result: u64)
        requires
            self.wf(),
        ensures
            result == self.spec_values().len(),
    ;

    /// Makes room for exactly `capacity` values.
    fn reallocate(&mut self, capacity: u64) -> (result: Result<(), DbError>)
        requires
            old(self).wf(),
            old(self).spec_values().len() <= capacity,
        ensures
            final(self).wf(),
            final(self).spec_reliable() == old(self).spec_reliable(),
            final(self).spec_room_limit() == old(self).spec_room_limit(),
            old(self).spec_reliable() ==> (result is Ok <==> capacity <= old(self).spec_room_limit()),
            result is Ok ==> final(self).spec_values() == old(self).spec_values()
                && final(self).spec_capacity() == capacity,
    ;

    /// Takes out the value at `index`, moving the later values one place down.
    fn remove(&mut self, index: u64) -> (result: Result<T, DbError>)
        requires
            old(self).wf(),
            index < old(self).spec_values().len(),
        ensures
            final(self).wf(),
            final(self).spec_reliable() == old(self).spec_reliable(),
            final(self).spec_room_limit() == old(self).spec_room_limit(),
            old(self).spec_reliable() ==> result is Ok,
            result matches Ok(v) ==> v == old(self).spec_values()[index as int]
                && final(self).spec_values() == old(self).spec_values().remove(index as int)
                && final(self).spec_capacity() == old(self).spec_capacity(),
    ;

    /// Puts `value` at `index` and gives back the value that was there.
    fn replace(&mut self, index: u64, value: &T) -> (result: Result<T, DbError>)
        requires
            old(self).wf(),
            index < old(self).spec_values().len(),
        ensures
            final(self).wf(),
            final(self).spec_reliable() == old(self).spec_reliable(),
            final(self).spec_room_limit() == old(self).spec_room_limit(),
            old(self).spec_reliable() ==> result is Ok,
            result matches Ok(v) ==> v == old(self).spec_values()[index as int]
                && final(self).spec_values() == old(self).spec_values().update(index as int, *value)
                && final(self).spec_capacity() == old(self).spec_capacity(),
    ;

    /// Cuts the values to `new_len` or extends them with copies of `value`.
    fn resize(&mut self, new_len: u64, value: &T) -> (result: Result<(), DbError>)
        requires
            old(self).wf(),
            new_len <= old(self).spec_capacity(),
        ensures
            final(self).wf(),
            final(self).spec_reliable() == old(self).spec_reliable(),
            final(self).spec_room_limit() == old(self).spec_room_limit(),
            old(self).spec_reliable() ==> result is Ok,
            result is Ok ==> final(self).spec_values() == resized(
                old(self).spec_values(),
                new_len as nat,
                *value,
            ) && final(self).spec_capacity() == old(self).spec_capacity(),
    ;

    /// Exchanges the values at `index` and `other`.
    fn swap(&mut self, index: u64, other: u64) -> (result: Result<(), DbError>)
        requires
            old(self).wf(),
            index < old(self).spec_values().len(),
            other < old(self).spec_values().len(),
        ensures
            final(self).wf(),
            final(self).spec_reliable() == old(self).spec_reliable(),
            final(self).spec_room_limit() == old(self).spec_room_limit(),
            old(self).spec_reliable() ==> result is Ok,
            result is Ok ==> final(self).spec_values() == swapped(
                old(self).spec_values(),
                index as int,
                other as int,
            ) && final(self).spec_capacity() == old(self).spec_capacity(),
    ;

    /// A copy of the value at `index`.
    fn value(&self, index: u64) -> (result: Result<T, DbError>)
        requires
            self.wf(),
            index < self.spec_values().len(),
        ensures
            self.spec_reliable() ==> result is Ok,
            result matches Ok(v) ==> v == self.spec_values()[index as int],
    ;
}

/// Values kept in memory, with the room reserved for them counted apart.
pub struct VecDataMemory<T> {
    values: Vec<T>,
    capacity: u64,
}

impl<T: VecValue> VecDataMemory<T> {
    /// No values and no room.
    pub fn new() -> (result: Self)
        ensures
            result.wf(),
            result.spec_values() == Seq::<T>::empty(),
            result.spec_capacity() == 0,
            result.spec_reliable(),
            result.spec_room_limit() == usize::MAX,
    {
        VecDataMemory { values: Vec::new(), capacity: 0 }
    }
}

impl<T: VecValue> VecData<T> for VecDataMemory<T> {
    closed spec fn spec_values(&self) -> Seq<T> {
        self.values@
    }

    closed spec fn spec_capacity(&self) -> u64 {
        self.capacity
    }

    closed spec fn wf(&self) -> bool {
        self.values@.len() <= self.capacity <= usize::MAX
    }

    /// Memory answers every request within the addressable range.
    closed spec fn spec_reliable(&self) -> bool {
        true
    }

    /// No more values than memory can address.
    closed spec fn spec_room_limit(&self) -> nat {
        usize::MAX as nat
    }

    proof fn lemma_within_capacity(&self) {
    }

    fn capacity(&self) -> (result: u64) {
        self.capacity
    }

    fn len(&self) -> (result: u64) {
        self.values.len() as u64
    }

    /// Fails when `capacity` values could not be addressed in memory.
    fn reallocate(&mut self, capacity: u64) -> (result: Result<(), DbError>)
        ensures
            result is Ok <==> capacity <= usize::MAX,
            result is Err ==> *final(self) == *old(self),
    {
        if capacity > usize::MAX as u64 {
            return Err(
                DbError::collections(
                    DbErrorType::OutOfBounds,
                    "VecDataMemory error: capacity exceeds addressable memory",
                ),
            );
        }
        self.capacity = capacity;
        Ok(())
    }

    fn remove(&mut self, index: u64) -> (result: Result<T, DbError>)
        ensures
            result is Ok,
    {
        let _ = self.values.len();
        Ok(self.values.remove(index as usize))
    }

    fn replace(&mut self, index: u64, value: &T) -> (result: Result<T, DbError>)
        ensures
            result is Ok,
    {
        let _ = self.values.len();
        let i = index as usize;
        let previous = self.values[i].duplicate();
        self.values[i] = value.duplicate();
        Ok(previous)
    }

    fn resize(&mut self, new_len: u64, value: &T) -> (result: Result<(), DbError>)
        ensures
            result is Ok,
    {
        let _ = self.values.len();
        let target = new_len as usize;
        if target <= self.values.len() {
            self.values.truncate(target);
            assert(self.values@ =~= resized(old(self).values@, new_len as nat, *value));
        } else {
            while self.values.len() < target
                invariant
                    old(self).values@.len() <= self.values@.len() <= target,
                    target == new_len,
                    new_len <= self.capacity,
                    self.capacity == old(self).capacity,
                    forall|i: int|
                        0 <= i < self.values@.len() ==> #[trigger] self.values@[i] == (if i
                            < old(self).values@.len() {
                            old(self).values@[i]
                        } else {
                            *value
                        }),
                decreases target - self.values@.len(),
            {
                self.values.push(value.duplicate());
            }
            assert(self.values@ =~= resized(old(self).values@, new_len as nat, *value));
        }
        Ok(())
    }

    fn swap(&mut self, index: u64, other: u64) -> (result: Result<(), DbError>)
        ensures
            result is Ok,
    {
        let _ = self.values.len();
        let i = index as usize;
        let j = other as usize;
        let at_i = self.values[i].duplicate();
        let at_j = self.values[j].duplicate();
        self.values[i] = at_j;
        self.values[j] = at_i;
        Ok(())
    }

    fn value(&self, index: u64) -> (result: Result<T, DbError>)
        ensures
            result is Ok,
    {
        let _ = self.values.len();
        Ok(self.values[index as usize].duplicate())
    }
}

/// A growable sequence of values kept in a `VecData` store. It checks every
/// index it is given and grows the store by half again, by at least
/// `MIN_VEC_CAPACITY` slots, when it is full.
pub struct VecImpl<T: VecValue, Data: VecData<T>> {
    data: Data,
    phantom: PhantomData<T>,
}

/// A vector whose values are kept in memory.
pub type MemoryVec<T> = VecImpl<T, VecDataMemory<T>>;

impl<T: VecValue> VecImpl<T, VecDataMemory<T>> {
    /// An empty vector with no room.
    pub fn new() -> (result: Self)
        ensures
            result.wf(),
            result@ == Seq::<T>::empty(),
            result.spec_capacity() == 0,
            result.spec_reliable(),
            result.spec_room_limit() == usize::MAX,
    {
        VecImpl { data: VecDataMemory::new(), phantom: PhantomData }
    }
}

impl<T: VecValue, Data: VecData<T>> View for VecImpl<T, Data> {
    type V = Seq<T>;

    closed spec fn view(&self) -> Seq<T> {
        self.data.spec_values()
    }
}

impl<T: VecValue, Data: VecData<T>> VecImpl<T, Data> {
    pub closed spec fn wf(&self) -> bool {
        self.data.wf()
    }

    /// The number of values there is room for.
    pub closed spec fn spec_capacity(&self) -> u64 {
        self.data.spec_capacity()
    }

    /// The store answers every request within its bounds.
    pub closed spec fn spec_reliable(&self) -> bool {
        self.data.spec_reliable()
    }

    /// The most values the store can make room for.
    pub closed spec fn spec_room_limit(&self) -> nat {
        self.data.spec_room_limit()
    }

    /// A vector over the values already in `data`.
    pub fn from_data(data: Data) -> (result: Self)
        requires
            data.wf(),
        ensures
            result.wf(),
            result@ == data.spec_values(),
            result.spec_capacity() == data.spec_capacity(),
            result.spec_reliable() == data.spec_reliable(),
            result.spec_room_limit() == data.spec_room_limit(),
    {
        VecImpl { data, phantom: PhantomData }
    }

    pub fn capacity(&self) -> (result: u64)
        requires
            self.wf(),
        ensures
            result == self.spec_capacity(),
    {
        self.data.capacity()
    }

    pub fn len(&self) -> (result: u64)
        requires
            self.wf(),
        ensures
            result == self@.len(),
    {
        self.data.len()
    }

    pub fn is_empty(&self) -> (result: bool)
        requires
            self.wf(),
        ensures
            result == (self@.len() == 0),
    {
        self.len() == 0
    }

    /// The values from the first one up to the first that the store cannot
    /// give back; all of them when the store gives every one back.
    pub fn iter(&self) -> (result: Vec<T>)
        requires
            self.wf(),
        ensures
            result@.len() <= self@.len(),
            result@ == self@.take(result@.len() as int),
            self.spec_reliable() ==> result@ == self@,
    {
        let mut result: Vec<T> = Vec::new();
        let len = self.len();
        let mut index: u64 = 0;
        while index < len
            invariant
                self.wf(),
                len == self@.len(),
                index <= len,
                result@.len() == index,
                result@ == self@.take(index as int),
            decreases len - index,
        {
            match self.data.value(index) {
                Ok(v) => {
                    result.push(v);
                },
                Err(_) => {
                    return result;
                },
            }
            index = index + 1;
            assert(result@ =~= self@.take(index as int));
        }
        result
    }

    /// Adds `value` at the end, first growing the room to half again as much
    /// (at least `MIN_VEC_CAPACITY` slots) when the vector is full.
    pub fn push(&mut self, value: &T) -> (result: Result<(), DbError>)
        requires
            old(self).wf(),
            old(self)@.len() == old(self).spec_capacity() ==> old(self).spec_capacity()
                + old(self).spec_capacity() / 2 <= u64::MAX,
        ensures
            final(self).wf(),
            final(self).spec_reliable() == old(self).spec_reliable(),
            final(self).spec_room_limit() == old(self).spec_room_limit(),
            old(self).spec_reliable() ==> (result is Ok <==> (old(self)@.len() < old(
                self,
            ).spec_capacity() || grown_capacity(old(self).spec_capacity())
                <= old(self).spec_room_limit())),
            result is Ok ==> final(self)@ == old(self)@.push(*value),
            result is Ok && old(self)@.len() < old(self).spec_capacity() ==> final(self).spec_capacity() == old(self).spec_capacity(),
            result is Ok && old(self)@.len() == old(self).spec_capacity() ==> final(self).spec_capacity() == grown_capacity(old(self).spec_capacity()),
    {
        proof {
            self.data.lemma_within_capacity();
        }
        let len = self.data.len();
        if len == self.data.capacity() {
            let capacity = self.capacity();
            let grown = capacity + capacity / 2;
            let new_capacity = if grown < MIN_VEC_CAPACITY {
                MIN_VEC_CAPACITY
            } else {
                grown
            };
            match self.data.reallocate(new_capacity) {
                Ok(()) => {},
                Err(e) => {
                    return Err(e);
                },
            }
        }
        let result = self.data.resize(len + 1, value);
        proof {
            if result is Ok {
                assert(self@ =~= old(self)@.push(*value));
            }
        }
        result
    }

    /// Takes out the value at `index`, moving the later values one place down.
    pub fn remove(&mut self, index: u64) -> (result: Result<T, DbError>)
        requires
            old(self).wf(),
        ensures
            final(self).wf(),
            final(self).spec_reliable() == old(self).spec_reliable(),
            final(self).spec_room_limit() == old(self).spec_room_limit(),
            old(self).spec_reliable() && index < old(self)@.len() ==> result is Ok,
            index >= old(self)@.len() ==> result is Err && final(self)@ == old(self)@
                && final(self).spec_capacity() == old(self).spec_capacity(),
            result matches Err(e) ==> (index >= old(self)@.len() ==> is_out_of_bounds(
                e,
                index as nat,
                old(self)@.len(),
            )),
            result matches Ok(v) ==> index < old(self)@.len() && v == old(self)@[index as int]
                && final(self)@ == old(self)@.remove(index as int) && final(self).spec_capacity()
                == old(self).spec_capacity(),
    {
        match self.validate_index(index) {
            Ok(()) => self.data.remove(index),
            Err(e) => Err(e),
        }
    }

    /// Puts `value` at `index` and gives back the value that was there.
    pub fn replace(&mut self, index: u64, value: &T) -> (result: Result<T, DbError>)
        requires
            old(self).wf(),
        ensures
            final(self).wf(),
            final(self).spec_reliable() == old(self).spec_reliable(),
            final(self).spec_room_limit() == old(self).spec_room_limit(),
            old(self).spec_reliable() && index < old(self)@.len() ==> result is Ok,
            index >= old(self)@.len() ==> result is Err && final(self)@ == old(self)@
                && final(self).spec_capacity() == old(self).spec_capacity(),
            result matches Err(e) ==> (index >= old(self)@.len() ==> is_out_of_bounds(
                e,
                index as nat,
                old(self)@.len(),
            )),
            result matches Ok(v) ==> index < old(self)@.len() && v == old(self)@[index as int]
                && final(self)@ == old(self)@.update(index as int, *value)
                && final(self).spec_capacity() == old(self).spec_capacity(),
    {
        match self.validate_index(index) {
            Ok(()) => self.data.replace(index, value),
            Err(e) => Err(e),
        }
    }

    /// Makes room for at least `capacity` values; never shrinks the room.
    pub fn reserve(&mut self, capacity: u64) -> (result: Result<(), DbError>)
        requires
            old(self).wf(),
        ensures
            final(self).wf(),
            final(self).spec_reliable() == old(self).spec_reliable(),
            final(self).spec_room_limit() == old(self).spec_room_limit(),
            old(self).spec_reliable() ==> (result is Ok <==> (capacity <= old(self).spec_capacity()
                || capacity <= old(self).spec_room_limit())),
            capacity <= old(self).spec_capacity() ==> result is Ok && final(self)@ == old(self)@ && final(self).spec_capacity() == old(self).spec_capacity(),
            result is Ok ==> final(self)@ == old(self)@ && final(self).spec_capacity() == (
            if capacity <= old(self).spec_capacity() {
                old(self).spec_capacity()
            } else {
                capacity
            }),
    {
        proof {
            self.data.lemma_within_capacity();
        }
        if self.capacity() < capacity {
            self.data.reallocate(capacity)
        } else {
            Ok(())
        }
    }

    /// Cuts the vector to `new_len` values or extends it with copies of
    /// `value`, first making room for `new_len` values when there is less.
    pub fn resize(&mut self, new_len: u64, value: &T) -> (result: Result<(), DbError>)
        requires
            old(self).wf(),
        ensures
            final(self).wf(),
            final(self).spec_reliable() == old(self).spec_reliable(),
            final(self).spec_room_limit() == old(self).spec_room_limit(),
            old(self).spec_reliable() ==> (result is Ok <==> (new_len <= old(self).spec_capacity()
                || new_len <= old(self).spec_room_limit())),
            result is Ok ==> final(self)@ == resized(old(self)@, new_len as nat, *value)
                && final(self).spec_capacity() == (if new_len <= old(self).spec_capacity() {
                old(self).spec_capacity()
            } else {
                new_len
            }),
    {
        proof {
            self.data.lemma_within_capacity();
        }
        if self.capacity() < new_len {
            match self.data.reallocate(new_len) {
                Ok(()) => {},
                Err(e) => {
                    return Err(e);
                },
            }
        }
        self.data.resize(new_len, value)
    }

    /// Gives up the room beyond the values held.
    pub fn shrink_to_fit(&mut self) -> (result: Result<(), DbError>)
        requires
            old(self).wf(),
        ensures
            final(self).wf(),
            final(self).spec_reliable() == old(self).spec_reliable(),
            final(self).spec_room_limit() == old(self).spec_room_limit(),
            old(self).spec_reliable() ==> result is Ok,
            result is Ok ==> final(self)@ == old(self)@ && final(self).spec_capacity()
                == old(self)@.len(),
    {
        proof {
            self.data.lemma_within_capacity();
        }
        let len = self.len();
        self.data.reallocate(len)
    }

    /// Exchanges the values at `index` and `other`; nothing happens when they
    /// are the same index, valid or not.
    pub fn swap(&mut self, index: u64, other: u64) -> (result: Result<(), DbError>)
        requires
            old(self).wf(),
        ensures
            final(self).wf(),
            final(self).spec_reliable() == old(self).spec_reliable(),
            final(self).spec_room_limit() == old(self).spec_room_limit(),
            old(self).spec_reliable() && index < old(self)@.len() && other < old(self)@.len()
                ==> result is Ok,
            index == other ==> result is Ok && final(self)@ == old(self)@ && final(self).spec_capacity() == old(self).spec_capacity(),
            index != other && (index >= old(self)@.len() || other >= old(self)@.len())
                ==> result is Err,
            result matches Err(e) ==> (index >= old(self)@.len() ==> is_out_of_bounds(
                e,
                index as nat,
                old(self)@.len(),
            )),
            result matches Err(e) ==> (index < old(self)@.len() && other >= old(self)@.len()
                ==> is_out_of_bounds(e, other as nat, old(self)@.len())),
            index >= old(self)@.len() || other >= old(self)@.len() ==> final(self)@ == old(self)@ && final(self).spec_capacity() == old(self).spec_capacity(),
            result is Ok && index != other ==> final(self)@ == swapped(
                old(self)@,
                index as int,
                other as int,
            ) && final(self).spec_capacity() == old(self).spec_capacity(),
    {
        if index == other {
            return Ok(());
        }
        match self.validate_index(index) {
            Ok(()) => {},
            Err(e) => {
                return Err(e);
            },
        }
        match self.validate_index(other) {
            Ok(()) => self.data.swap(index, other),
            Err(e) => Err(e),
        }
    }

    /// A copy of the value at `index`.
    pub fn value(&self, index: u64) -> (result: Result<T, DbError>)
        requires
            self.wf(),
        ensures
            self.spec_reliable() && index < self@.len() ==> result is Ok,
            index >= self@.len() ==> result is Err,
            result matches Err(e) ==> (index >= self@.len() ==> is_out_of_bounds(
                e,
                index as nat,
                self@.len(),
            )),
            result matches Ok(v) ==> index < self@.len() && v == self@[index as int],
    {
        match self.validate_index(index) {
            Ok(()) => self.data.value(index),
            Err(e) => Err(e),
        }
    }

    fn validate_index(&self, index: u64) -> (result: Result<(), DbError>)
        requires
            self.wf(),
        ensures
            result is Ok <==> index < self@.len(),
            result matches Err(e) ==> is_out_of_bounds(e, index as nat, self@.len()),
    {
        let len = self.len();
        if len <= index {
            return Err(
                DbError {
                    description: out_of_bounds_description(index, len),
                    category: DbErrorCategory::Collections,
                    ty: DbErrorType::OutOfBounds,
                    cause: None,
                },
            );
        }
        Ok(())
    }
}

/// The room a full vector of `capacity` slots grows to: half again as much,
/// and at least `MIN_VEC_CAPACITY`.
pub open spec fn grown_capacity(capacity: u64) -> u64 {
    let grown = capacity + capacity / 2;
    if grown < MIN_VEC_CAPACITY {
        MIN_VEC_CAPACITY
    } else {
        grown as u64
    }
}

/// A full vector always gains room when it grows.
pub proof fn law_growth_makes_room(capacity: u64)
    requires
        capacity + capacity / 2 <= u64::MAX,
    ensures
        grown_capacity(capacity) > capacity,
        grown_capacity(capacity) >= MIN_VEC_CAPACITY,
{
}

/// Swapping the same two values twice gives the values back.
pub proof fn law_swap_twice<T>(values: Seq<T>, i: int, j: int)
    requires
        0 <= i < values.len(),
        0 <= j < values.len(),
    ensures
        swapped(swapped(values, i, j), i, j) == values,
{
    assert(swapped(swapped(values, i, j), i, j) =~= values);
}

/// Resizing to fewer values keeps the first ones; resizing to more keeps
/// every value and adds copies of `value` after them.
pub proof fn law_resize_keeps_prefix<T>(values: Seq<T>, new_len: nat, value: T)
    ensures
        new_len <= values.len() ==> resized(values, new_len, value) == values.take(
            new_len as int,
        ),
        new_len >= values.len() ==> resized(values, new_len, value).take(values.len() as int)
            == values,
        forall|i: int|
            values.len() <= i < new_len ==> #[trigger] resized(values, new_len, value)[i]
                == value,
{
    if new_len <= values.len() {
        assert(resized(values, new_len, value) =~= values.take(new_len as int));
    } else {
        assert(resized(values, new_len, value).take(values.len() as int) =~= values);
    }
}

} // verus!
