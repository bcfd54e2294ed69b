//! An image of the memory that a mirror is laid over.
//!
//! A region holds the bytes of a block of memory together with the address
//! at which the block starts.  Cells move values in and out of it through
//! wrapper pointers: each load and each store is one access of the wrapper's
//! size, at an address that the wrapper's alignment permits.  The region
//! keeps a record of the accesses in the order in which they were made.

use crate::alignment::Wrapper;
use vstd::prelude::*;

verus! {

/// Where a wrapped value lies in memory.
#[derive(Debug, Clone, Copy, PartialEq, Eq, Structural)]
pub struct WrapperPointer {
    /// The address of the first byte.
    pub address: usize,
    /// The size of the wrapper, which is the size of the value in it.
    pub size: usize,
    /// The alignment of the wrapper.
    pub alignment: usize,
}

/// What an access does.
#[derive(Debug, Clone, Copy, PartialEq, Eq, Structural)]
pub enum AccessKind {
    Load,
    Store,
}

/// One access to memory: a load or a store of one wrapper.
#[derive(Debug, Clone, Copy, PartialEq, Eq, Structural)]
pub struct Access {
    pub kind: AccessKind,
    pub pointer: WrapperPointer,
}

/// A block of memory.
#[derive(Debug, PartialEq, Eq)]
pub struct Region {
    /// The address of the first byte.
    pub start: usize,
    /// The bytes, from `start` on.
    pub bytes: Vec<u8>,
    /// The accesses that were made, oldest first.
    pub accesses: Vec<Access>,
}

/// The bytes of a block after `value` has been stored at index `at`.
pub open spec fn stored(bytes: Seq<u8>, at: int, value: Seq<u8>) -> Seq<u8> {
    Seq::new(
        bytes.len(),
        |i: int|
            if at <= i < at + value.len() {
                value[i - at]
            } else {
                bytes[i]
            },
    )
}

/// The `size` bytes of a block from index `at` on.
pub open spec fn loaded(bytes: Seq<u8>, at: int, size: int) -> Seq<u8> {
    bytes.subrange(at, at + size)
}

/// What was stored is what a load from the same place returns.
pub proof fn lemma_load_after_store(bytes: Seq<u8>, at: int, value: Seq<u8>)
    requires
        0 <= at,
        at + value.len() <= bytes.len(),
    ensures
        loaded(stored(bytes, at, value), at, value.len() as int) == value,
{
    assert(loaded(stored(bytes, at, value), at, value.len() as int) =~= value);
}

/// A store leaves every byte outside of its own range as it was.
pub proof fn lemma_store_elsewhere(
    bytes: Seq<u8>,
    at: int,
    value: Seq<u8>,
    other: int,
    size: int,
)
    requires
        0 <= at,
        at + value.len() <= bytes.len(),
        0 <= other,
        0 <= size,
        other + size <= bytes.len(),
        other + size <= at || at + value.len() <= other,
    ensures
        loaded(stored(bytes, at, value), other, size) == loaded(bytes, other, size),
{
    assert(loaded(stored(bytes, at, value), other, size) =~= loaded(bytes, other, size));
}

/// Stores to ranges that do not overlap may be made in either order.
pub proof fn lemma_stores_commute(
    bytes: Seq<u8>,
    first: int,
    first_value: Seq<u8>,
    second: int,
    second_value: Seq<u8>,
)
    requires
        0 <= first,
        first + first_value.len() <= bytes.len(),
        0 <= second,
        second + second_value.len() <= bytes.len(),
        first + first_value.len() <= second || second + second_value.len() <= first,
    ensures
        stored(stored(bytes, first, first_value), second, second_value) == stored(
            stored(bytes, second, second_value),
            first,
            first_value,
        ),
{
    assert(stored(stored(bytes, first, first_value), second, second_value) =~= stored(
        stored(bytes, second, second_value),
        first,
        first_value,
    ));
}

impl WrapperPointer {
    /// Whether an access through the pointer is permitted: the address is a
    /// multiple of the alignment.
    pub open spec fn aligned(self) -> bool {
        self.alignment > 0 && self.address % self.alignment == 0
    }
}

impl Region {
    /// Whether the `size` bytes from `address` on lie within the region.
    pub open spec fn covers(self, address: nat, size: nat) -> bool {
        self.start <= address && address + size <= self.start + self.bytes@.len()
    }

    /// The index within the region of the byte at `address`.
    pub open spec fn index_of(self, address: nat) -> int {
        address - self.start
    }

    /// A block of memory that starts at `start` and holds `bytes`, before
    /// any access.
    pub fn new(start: usize, bytes: Vec<u8>) -> (region: Region)
        ensures
            region.start == start,
            region.bytes == bytes,
            region.accesses@ == Seq::<Access>::empty(),
    {
        Region { start, bytes, accesses: Vec::new() }
    }

    /// Tells whether the wrapper that `pointer` points to lies within the
    /// region.
    pub fn contains(&self, pointer: &WrapperPointer) -> (inside: bool)
        ensures
            inside == self.covers(pointer.address as nat, pointer.size as nat),
    {
        if pointer.address < self.start {
            return false;
        }
        let at: usize = pointer.address - self.start;
        at <= self.bytes.len() && pointer.size <= self.bytes.len() - at
    }

    /// Loads the wrapper that `pointer` points to, in one access.  The
    /// bytes of the region stay as they are.
    pub fn load(&mut self, pointer: &WrapperPointer) -> (wrapped: Wrapper<Vec<u8>>)
        requires
            pointer.aligned(),
            old(self).covers(pointer.address as nat, pointer.size as nat),
        ensures
            final(self).start == old(self).start,
            final(self).bytes == old(self).bytes,
            final(self).accesses@ == old(self).accesses@.push(
                Access { kind: AccessKind::Load, pointer: *pointer },
            ),
            wrapped.alignment == pointer.alignment,
            wrapped.value@ == loaded(
                old(self).bytes@,
                old(self).index_of(pointer.address as nat),
                pointer.size as int,
            ),
    {
        self.accesses.push(Access { kind: AccessKind::Load, pointer: *pointer });
        let at: usize = pointer.address - self.start;
        let length: usize = self.bytes.len();
        let mut value: Vec<u8> = Vec::new();
        let mut index: usize = 0;
        while index < pointer.size
            invariant
                index <= pointer.size,
                at + pointer.size <= self.bytes@.len() == length,
                self.start == old(self).start,
                self.bytes == old(self).bytes,
                self.accesses@ == old(self).accesses@.push(
                    Access { kind: AccessKind::Load, pointer: *pointer },
                ),
                value@ == self.bytes@.subrange(at as int, at + index),
            decreases pointer.size - index,
        {
            value.push(self.bytes[at + index]);
            assert(self.bytes@.subrange(at as int, at + index + 1) =~= self.bytes@.subrange(
                at as int,
                at + index,
            ).push(self.bytes@[at + index]));
            index += 1;
        }
        Wrapper { value, alignment: pointer.alignment }
    }

    /// Stores a wrapper where `pointer` points to, in one access.  No byte
    /// outside of the wrapper changes.
    pub fn store(&mut self, pointer: &WrapperPointer, wrapped: &Wrapper<Vec<u8>>)
        requires
            pointer.aligned(),
            old(self).covers(pointer.address as nat, pointer.size as nat),
            wrapped.alignment == pointer.alignment,
            wrapped.value@.len() == pointer.size,
        ensures
            final(self).start == old(self).start,
            final(self).bytes@ == stored(
                old(self).bytes@,
                old(self).index_of(pointer.address as nat),
                wrapped.value@,
            ),
            final(self).accesses@ == old(self).accesses@.push(
                Access { kind: AccessKind::Store, pointer: *pointer },
            ),
    {
        self.accesses.push(Access { kind: AccessKind::Store, pointer: *pointer });
        let at: usize = pointer.address - self.start;
        let length: usize = self.bytes.len();
        let mut index: usize = 0;
        while index < pointer.size
            invariant
                index <= pointer.size,
                length == old(self).bytes@.len(),
                wrapped.value@.len() == pointer.size,
                self.start == old(self).start,
                self.accesses@ == old(self).accesses@.push(
                    Access { kind: AccessKind::Store, pointer: *pointer },
                ),
                self.bytes@.len() == old(self).bytes@.len(),
                at + pointer.size <= self.bytes@.len(),
                self.bytes@ == stored(
                    old(self).bytes@,
                    at as int,
                    wrapped.value@.take(index as int),
                ),
            decreases pointer.size - index,
        {
            self.bytes.set(at + index, wrapped.value[index]);
            assert(self.bytes@ =~= stored(
                old(self).bytes@,
                at as int,
                wrapped.value@.take(index + 1),
            ));
            index += 1;
        }
        assert(wrapped.value@.take(pointer.size as int) =~= wrapped.value@);
    }
}

} // verus!
