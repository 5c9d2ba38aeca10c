//! Slot pool: a fixed-length array of optionally occupied slots.
//!
//! A slot's storage holds a value exactly when the slot is occupied; the pool
//! itself enforces "no overwrite of a live value" and "no drop of an empty
//! slot" through its contracts, so the layers above never see partially
//! constructed storage.

use vstd::prelude::*;

verus! {

/// Errors for slot-pool accesses: an index past the end of the pool, or an
/// index whose slot holds no value.
#[derive(Debug, Clone, Copy, PartialEq, Eq, Structural)]
pub enum MemoryError {
    BoundsExceeded,
    DoesNotExist,
}

/// A fixed-capacity pool of slots, each either empty or holding one `T`.
///
/// The view of a pool is the sequence of its slots, `Some` for occupied ones.
/// The pool's length is fixed at construction; no operation changes it.
pub struct MemoryBlock<T> {
    slots: Vec<Option<T>>,
}

impl<T> View for MemoryBlock<T> {
    type V = Seq<Option<T>>;

    closed spec fn view(&self) -> Seq<Option<T>> {
        self.slots@
    }
}

impl<T> MemoryBlock<T> {
    /// Allocates a pool of `length` slots, all empty.
    pub fn new(length: usize) -> (r: Self)
        ensures
            r@.len() == length,
            forall|i: int| 0 <= i < length ==> r@[i] is None,
    {
        let mut slots: Vec<Option<T>> = Vec::new();
        let mut i: usize = 0;
        while i < length
            invariant
                i <= length,
                slots@.len() == i,
                forall|j: int| 0 <= j < i ==> slots@[j] is None,
            decreases length - i,
        {
            slots.push(None);
            i = i + 1;
        }
        MemoryBlock { slots }
    }

    /// The number of slots in the pool.
    pub fn length(&self) -> (r: usize)
        ensures
            r == self@.len(),
    {
        self.slots.len()
    }

    /// Accepts exactly the indices that name a slot of this pool.
    pub fn bounds_check(&self, index: usize) -> (r: Result<(), MemoryError>)
        ensures
            r is Ok <==> index < self@.len(),
            r is Err ==> r == Err::<(), MemoryError>(MemoryError::BoundsExceeded),
    {
        if index >= self.slots.len() {
            return Err(MemoryError::BoundsExceeded);
        }
        Ok(())
    }

    /// Accepts exactly the in-bounds indices whose slot is occupied.
    pub fn allocated_check(&self, index: usize) -> (r: Result<(), MemoryError>)
        requires
            index < self@.len(),
        ensures
            r is Ok <==> self@[index as int] is Some,
            r is Err ==> r == Err::<(), MemoryError>(MemoryError::DoesNotExist),
    {
        if self.slots[index].is_none() {
            return Err(MemoryError::DoesNotExist);
        }
        Ok(())
    }

    /// True exactly when the slot at `index` holds a value.
    pub fn is_allocated(&self, index: usize) -> (r: bool)
        requires
            index < self@.len(),
        ensures
            r == (self@[index as int] is Some),
    {
        self.slots[index].is_some()
    }

    /// Stores `object` in the empty slot at `index`, marking it occupied.
    /// Writing over a live value is ruled out by contract, never checked at
    /// run time, so the previous occupant can never leak undropped.
    pub fn write(&mut self, index: usize, object: T)
        requires
            index < old(self)@.len(),
            old(self)@[index as int] is None,
        ensures
            final(self)@ == old(self)@.update(index as int, Some(object)),
    {
        let slot = &mut self.slots[index];
        *slot = Some(object);
    }

    /// Drops the value in the occupied slot at `index`, leaving it empty.
    /// Double-drop is ruled out by contract: the slot must be occupied.
    pub fn drop(&mut self, index: usize)
        requires
            index < old(self)@.len(),
            old(self)@[index as int] is Some,
        ensures
            final(self)@ == old(self)@.update(index as int, None),
    {
        let slot = &mut self.slots[index];
        *slot = None;
    }

    /// Borrows the value in the occupied slot at `index`.
    pub fn read(&self, index: usize) -> (r: &T)
        requires
            index < self@.len(),
            self@[index as int] is Some,
        ensures
            self@[index as int] == Some(*r),
    {
        self.slots[index].as_ref().unwrap()
    }

    /// Mutably borrows the value in the occupied slot at `index`.
    pub fn get_mut(&mut self, index: usize) -> (r: &mut T)
        requires
            index < old(self)@.len(),
            old(self)@[index as int] is Some,
        ensures
            Some(*r) == old(self)@[index as int],
            final(self)@ == old(self)@.update(index as int, Some(*final(r))),
    {
        self.slots[index].as_mut().unwrap()
    }
}

} // verus!
