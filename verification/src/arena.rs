//! Handle arena: a fixed-capacity object pool addressed through copyable,
//! generation-checked handles.
//!
//! A handle carries a slot index, the generation the slot had when the handle
//! was issued, and a static type tag; it holds no reference into memory. Every
//! operation re-validates the handle against the arena, so a handle that
//! outlives its slot's occupant is rejected with `DoesNotExist` instead of
//! silently aliasing a later occupant of the same slot.

use vstd::prelude::*;
use crate::pool::MemoryBlock;
use core::marker::PhantomData;

verus! {

/// Errors for arena operations.
///
/// `PoisonedLock` is part of the public error surface for callers that guard
/// slots with locks; the arena itself is driven by a single coordinator and
/// never returns it.
#[derive(Debug, Clone, Copy, PartialEq, Eq, Structural)]
pub enum ArenaError {
    BoundsExceeded,
    DoesNotExist,
    OutOfMemory,
    PoisonedLock,
}

/// A copyable token naming one slot of an `Arena<T>`.
#[derive(Debug)]
pub struct ArenaHandle<T> {
    pub index: usize,
    pub generation: u64,
    pub phantom_arena: PhantomData<T>,
}

impl<T> ArenaHandle<T> {
    /// Builds the handle for `index` at generation `generation`.
    pub fn new(index: usize, generation: u64) -> (r: Self)
        ensures
            r.index == index,
            r.generation == generation,
    {
        ArenaHandle { index, generation, phantom_arena: PhantomData }
    }
}

impl<T> Clone for ArenaHandle<T> {
    fn clone(&self) -> (r: Self)
        ensures
            r == *self,
    {
        ArenaHandle { index: self.index, generation: self.generation, phantom_arena: PhantomData }
    }
}

impl<T> Copy for ArenaHandle<T> {}

/// Counts the occupied slots of a pool view.
pub open spec fn num_occupied<T>(s: Seq<Option<T>>) -> int
    decreases s.len(),
{
    if s.len() == 0 {
        0
    } else {
        num_occupied(s.drop_last()) + if s.last() is Some { 1int } else { 0int }
    }
}

proof fn lemma_num_occupied_bounds<T>(s: Seq<Option<T>>)
    ensures
        0 <= num_occupied(s) <= s.len(),
    decreases s.len(),
{
    if s.len() > 0 {
        lemma_num_occupied_bounds(s.drop_last());
    }
}

proof fn lemma_num_occupied_free_slot<T>(s: Seq<Option<T>>, i: int)
    requires
        0 <= i < s.len(),
        s[i] is None,
    ensures
        num_occupied(s) < s.len(),
    decreases s.len(),
{
    if i == s.len() - 1 {
        lemma_num_occupied_bounds(s.drop_last());
    } else {
        lemma_num_occupied_free_slot(s.drop_last(), i);
    }
}

proof fn lemma_num_occupied_update<T>(s: Seq<Option<T>>, i: int, v: Option<T>)
    requires
        0 <= i < s.len(),
    ensures
        num_occupied(s.update(i, v)) == num_occupied(s)
            - (if s[i] is Some { 1int } else { 0int })
            + (if v is Some { 1int } else { 0int }),
    decreases s.len(),
{
    let t = s.update(i, v);
    if i == s.len() - 1 {
        assert(t.drop_last() =~= s.drop_last());
    } else {
        assert(t.drop_last() =~= s.drop_last().update(i, v));
        lemma_num_occupied_update(s.drop_last(), i, v);
    }
}

/// A fixed-capacity object pool with typed handles, a free-slot search
/// cursor, and a per-slot generation counter that invalidates stale handles.
pub struct Arena<T> {
    memory: MemoryBlock<T>,
    generations: Vec<u64>,
    last_known_free: usize,
    count: usize,
}

impl<T> View for Arena<T> {
    type V = Seq<Option<T>>;

    closed spec fn view(&self) -> Seq<Option<T>> {
        self.memory@
    }
}

impl<T> Arena<T> {
    /// The generation currently recorded for each slot.
    pub closed spec fn gens(&self) -> Seq<u64> {
        self.generations@
    }

    /// The index the next free-slot search starts from.
    pub closed spec fn cursor(&self) -> int {
        self.last_known_free as int
    }

    /// The number of occupied slots, as tracked by the arena.
    pub closed spec fn spec_count(&self) -> int {
        self.count as int
    }

    /// Internal consistency: generation table matches the pool, the cursor
    /// stays in range, and the occupancy count is exact.
    pub closed spec fn wf(&self) -> bool {
        &&& self.generations@.len() == self@.len()
        &&& self.last_known_free <= self@.len()
        &&& self.count == num_occupied(self@)
    }

    /// A handle is valid when its slot is occupied and the slot's generation
    /// still equals the handle's.
    pub open spec fn valid_handle(&self, h: ArenaHandle<T>) -> bool {
        &&& h.index < self@.len()
        &&& self@[h.index as int] is Some
        &&& self.gens()[h.index as int] == h.generation
    }

    /// Allocates an arena of `length` empty slots, all at generation 0.
    pub fn new(length: usize) -> (r: Self)
        ensures
            r.wf(),
            r@.len() == length,
            forall|i: int| 0 <= i < length ==> r@[i] is None,
            forall|i: int| 0 <= i < length ==> r.gens()[i] == 0,
            r.cursor() == 0,
            r.spec_count() == 0,
    {
        let memory = MemoryBlock::<T>::new(length);
        let mut generations: Vec<u64> = Vec::new();
        let mut i: usize = 0;
        while i < length
            invariant
                i <= length,
                generations@.len() == i,
                forall|j: int| 0 <= j < i ==> generations@[j] == 0,
            decreases length - i,
        {
            generations.push(0);
            i = i + 1;
        }
        let r = Arena { memory, generations, last_known_free: 0, count: 0 };
        proof {
            lemma_num_occupied_all_none(r@);
        }
        r
    }

    /// Builds an arena of capacity `length` whose first slots hold `items`,
    /// in order; the search cursor starts at 0.
    pub fn from_iter(length: usize, items: Vec<T>) -> (r: Self)
        requires
            items.len() <= length,
        ensures
            r.wf(),
            r@.len() == length,
            forall|i: int| 0 <= i < items@.len() ==> r@[i] == Some(items@[i]),
            forall|i: int| items@.len() <= i < length ==> r@[i] is None,
            r.cursor() == 0,
            r.spec_count() == items@.len(),
    {
        let ghost all_items = items@;
        let mut arena = Arena::<T>::new(length);
        let mut items = items;
        let mut i: usize = 0;
        while items.len() > 0
            invariant
                arena.wf(),
                arena@.len() == length,
                i + items@.len() == all_items.len(),
                all_items.len() <= length,
                items@ =~= all_items.skip(i as int),
                forall|j: int| 0 <= j < i ==> arena@[j] == Some(all_items[j]),
                forall|j: int| i <= j < length ==> arena@[j] is None,
                forall|j: int| 0 <= j < length ==> arena.gens()[j] == 0,
                arena.cursor() == 0,
                arena.spec_count() == i,
            decreases items@.len(),
        {
            let x = items.remove(0);
            proof {
                lemma_num_occupied_update(arena@, i as int, Some(x));
            }
            let ghost g0 = arena.gens();
            arena.memory.write(i, x);
            arena.count = arena.count + 1;
            proof {
                // the generation table is untouched by the write
                assert(arena.gens() == g0);
            }
            i = i + 1;
        }
        arena
    }

    /// Validates `index` and wraps it into a handle at the slot's current
    /// generation.
    fn new_handle(&self, index: usize) -> (r: Result<ArenaHandle<T>, ArenaError>)
        requires
            self.wf(),
        ensures
            index >= self@.len() ==> r == Err::<ArenaHandle<T>, ArenaError>(ArenaError::BoundsExceeded),
            index < self@.len() && self@[index as int] is None
                ==> r == Err::<ArenaHandle<T>, ArenaError>(ArenaError::DoesNotExist),
            index < self@.len() && self@[index as int] is Some ==> {
                &&& r matches Ok(h)
                &&& h.index == index
                &&& h.generation == self.gens()[index as int]
                &&& self.valid_handle(h)
            },
    {
        if index >= self.memory.length() {
            return Err(ArenaError::BoundsExceeded);
        }
        if !self.memory.is_allocated(index) {
            return Err(ArenaError::DoesNotExist);
        }
        Ok(ArenaHandle::new(index, self.generations[index]))
    }

    /// Stores `obj` in the first free slot at or after the cursor, wrapping
    /// to the start of the pool when the tail is full; fails with
    /// `OutOfMemory` exactly when every slot is occupied.
    pub fn create(&mut self, obj: T) -> (r: Result<ArenaHandle<T>, ArenaError>)
        requires
            old(self).wf(),
        ensures
            final(self).wf(),
            final(self)@.len() == old(self)@.len(),
            match r {
                Ok(h) => {
                    &&& h.index < old(self)@.len()
                    &&& old(self)@[h.index as int] is None
                    &&& h.generation == old(self).gens()[h.index as int]
                    &&& final(self)@ == old(self)@.update(h.index as int, Some(obj))
                    &&& final(self).gens() == old(self).gens()
                    &&& final(self).cursor() == h.index + 1
                    &&& final(self).spec_count() == old(self).spec_count() + 1
                    &&& final(self).valid_handle(h)
                    // the slot is the first free one at or after the cursor,
                    // or the first free one overall when the tail is full
                    &&& if h.index >= old(self).cursor() {
                            forall|j: int| old(self).cursor() <= j < h.index ==> old(self)@[j] is Some
                        } else {
                            &&& forall|j: int| old(self).cursor() <= j < old(self)@.len()
                                ==> old(self)@[j] is Some
                            &&& forall|j: int| 0 <= j < h.index ==> old(self)@[j] is Some
                        }
                }
                Err(e) => {
                    &&& e == ArenaError::OutOfMemory
                    &&& forall|j: int| 0 <= j < old(self)@.len() ==> old(self)@[j] is Some
                    &&& *final(self) == *old(self)
                }
            },
    {
        let length = self.memory.length();
        let mut i: usize = self.last_known_free;
        while i < length
            invariant
                self.wf(),
                *self == *old(self),
                length == self@.len(),
                old(self).cursor() <= i,
                forall|j: int| old(self).cursor() <= j < i ==> self@[j] is Some,
            decreases length - i,
        {
            if !self.memory.is_allocated(i) {
                proof {
                    lemma_num_occupied_update(self@, i as int, Some(obj));
                    lemma_num_occupied_free_slot(self@, i as int);
                }
                self.memory.write(i, obj);
                self.count = self.count + 1;
                self.last_known_free = i + 1;
                return Ok(ArenaHandle::new(i, self.generations[i]));
            }
            i = i + 1;
        }
        // the tail is full: wrap around and search the prefix
        let mut i: usize = 0;
        let cursor = self.last_known_free;
        while i < cursor
            invariant
                self.wf(),
                *self == *old(self),
                length == self@.len(),
                cursor == old(self).cursor(),
                i <= cursor,
                forall|j: int| old(self).cursor() <= j < length ==> self@[j] is Some,
                forall|j: int| 0 <= j < i ==> self@[j] is Some,
            decreases cursor - i,
        {
            if !self.memory.is_allocated(i) {
                proof {
                    lemma_num_occupied_update(self@, i as int, Some(obj));
                    lemma_num_occupied_free_slot(self@, i as int);
                }
                self.memory.write(i, obj);
                self.count = self.count + 1;
                self.last_known_free = i + 1;
                return Ok(ArenaHandle::new(i, self.generations[i]));
            }
            i = i + 1;
        }
        Err(ArenaError::OutOfMemory)
    }

    /// Drops the occupant of a valid handle's slot, bumps the slot's
    /// generation so the handle (and any copy of it) goes stale, and rests
    /// the search cursor on the freed slot so the next `create` reuses it.
    pub fn destroy(&mut self, handle: ArenaHandle<T>) -> (r: Result<(), ArenaError>)
        requires
            old(self).wf(),
        ensures
            final(self).wf(),
            final(self)@.len() == old(self)@.len(),
            handle.index >= old(self)@.len() ==> {
                &&& r == Err::<(), ArenaError>(ArenaError::BoundsExceeded)
                &&& *final(self) == *old(self)
            },
            handle.index < old(self)@.len() && !old(self).valid_handle(handle) ==> {
                &&& r == Err::<(), ArenaError>(ArenaError::DoesNotExist)
                &&& *final(self) == *old(self)
            },
            old(self).valid_handle(handle) ==> {
                &&& r is Ok
                &&& final(self)@ == old(self)@.update(handle.index as int, None::<T>)
                &&& final(self).gens()[handle.index as int] != handle.generation
                &&& forall|j: int| 0 <= j < old(self)@.len() && j != handle.index
                        ==> final(self).gens()[j] == old(self).gens()[j]
                &&& final(self).cursor() == handle.index
                &&& final(self).spec_count() == old(self).spec_count() - 1
            },
    {
        if handle.index >= self.memory.length() {
            return Err(ArenaError::BoundsExceeded);
        }
        if !self.memory.is_allocated(handle.index) {
            return Err(ArenaError::DoesNotExist);
        }
        if self.generations[handle.index] != handle.generation {
            return Err(ArenaError::DoesNotExist);
        }
        proof {
            lemma_num_occupied_update(self@, handle.index as int, None::<T>);
            lemma_num_occupied_bounds(self@.update(handle.index as int, None::<T>));
        }
        self.memory.drop(handle.index);
        let g = self.generations[handle.index];
        let bumped: u64 = if g == u64::MAX { 0 } else { g + 1 };
        let slot = &mut self.generations[handle.index];
        *slot = bumped;
        self.last_known_free = handle.index;
        self.count = self.count - 1;
        Ok(())
    }

    /// Borrows the value a valid handle refers to; a stale or dangling
    /// handle is reported, never dereferenced.
    pub fn read_lock(&self, handle: ArenaHandle<T>) -> (r: Result<&T, ArenaError>)
        requires
            self.wf(),
        ensures
            handle.index >= self@.len() ==> r == Err::<&T, ArenaError>(ArenaError::BoundsExceeded),
            handle.index < self@.len() && !self.valid_handle(handle)
                ==> r == Err::<&T, ArenaError>(ArenaError::DoesNotExist),
            self.valid_handle(handle) ==> {
                &&& r matches Ok(v)
                &&& self@[handle.index as int] == Some(*v)
            },
    {
        if handle.index >= self.memory.length() {
            return Err(ArenaError::BoundsExceeded);
        }
        if !self.memory.is_allocated(handle.index) {
            return Err(ArenaError::DoesNotExist);
        }
        if self.generations[handle.index] != handle.generation {
            return Err(ArenaError::DoesNotExist);
        }
        Ok(self.memory.read(handle.index))
    }

    /// Mutably borrows the value a valid handle refers to. The occupancy
    /// map, generations, cursor and count are untouched: only the slot's
    /// contents change, to whatever the caller writes through the borrow.
    pub fn write_lock(&mut self, handle: ArenaHandle<T>) -> (r: Result<&mut T, ArenaError>)
        requires
            old(self).wf(),
        ensures
            handle.index >= old(self)@.len() ==> {
                &&& r == Err::<&mut T, ArenaError>(ArenaError::BoundsExceeded)
                &&& *final(self) == *old(self)
            },
            handle.index < old(self)@.len() && !old(self).valid_handle(handle) ==> {
                &&& r == Err::<&mut T, ArenaError>(ArenaError::DoesNotExist)
                &&& *final(self) == *old(self)
            },
            old(self).valid_handle(handle) ==> {
                &&& r matches Ok(v)
                &&& Some(*v) == old(self)@[handle.index as int]
                &&& final(self)@ == old(self)@.update(handle.index as int, Some(*final(v)))
                &&& final(self).gens() == old(self).gens()
                &&& final(self).cursor() == old(self).cursor()
                &&& final(self).spec_count() == old(self).spec_count()
                &&& final(self).wf()
                &&& final(self).valid_handle(handle)
            },
    {
        if handle.index >= self.memory.length() {
            return Err(ArenaError::BoundsExceeded);
        }
        if !self.memory.is_allocated(handle.index) {
            return Err(ArenaError::DoesNotExist);
        }
        if self.generations[handle.index] != handle.generation {
            return Err(ArenaError::DoesNotExist);
        }
        proof {
            lemma_num_occupied_update_some(self@, handle.index as int);
        }
        Ok(self.memory.get_mut(handle.index))
    }

    /// Starts an iteration over the handles of the occupied slots.
    pub fn iter(&self) -> (r: ArenaIterator<'_, T>)
        requires
            self.wf(),
        ensures
            r.arena == self,
            r.i == 0,
    {
        ArenaIterator { i: 0, arena: self }
    }
}

/// Helper for `write_lock`: re-occupying an occupied slot keeps the count.
proof fn lemma_num_occupied_update_some<T>(s: Seq<Option<T>>, i: int)
    requires
        0 <= i < s.len(),
        s[i] is Some,
    ensures
        forall|v: T| num_occupied(s.update(i, Some(v))) == num_occupied(s),
{
    assert forall|v: T| num_occupied(s.update(i, Some(v))) == num_occupied(s) by {
        lemma_num_occupied_update(s, i, Some(v));
    }
}

proof fn lemma_num_occupied_all_none<T>(s: Seq<Option<T>>)
    requires
        forall|i: int| 0 <= i < s.len() ==> s[i] is None,
    ensures
        num_occupied(s) == 0,
    decreases s.len(),
{
    if s.len() > 0 {
        lemma_num_occupied_all_none(s.drop_last());
    }
}

/// A cursor over the occupied slots of an arena, yielding a fresh handle for
/// each one in index order and skipping the free slots.
pub struct ArenaIterator<'a, T> {
    pub i: usize,
    pub arena: &'a Arena<T>,
}

impl<'a, T> ArenaIterator<'a, T> {
    /// Yields the handle of the first occupied slot at or after the cursor,
    /// or `None` when only free slots remain.
    pub fn next(&mut self) -> (r: Option<ArenaHandle<T>>)
        requires
            old(self).arena.wf(),
        ensures
            final(self).arena == old(self).arena,
            match r {
                Some(h) => {
                    &&& old(self).i <= h.index < old(self).arena@.len()
                    &&& old(self).arena.valid_handle(h)
                    &&& forall|j: int| old(self).i <= j < h.index ==> old(self).arena@[j] is None
                    &&& final(self).i == h.index + 1
                }
                None => {
                    &&& forall|j: int|
                        old(self).i <= j < old(self).arena@.len() ==> old(self).arena@[j] is None
                    &&& final(self).i >= old(self).arena@.len()
                }
            },
    {
        let length = self.arena.memory.length();
        while self.i < length
            invariant
                self.arena == old(self).arena,
                self.arena.wf(),
                length == self.arena@.len(),
                old(self).i <= self.i,
                forall|j: int| old(self).i <= j < self.i ==> self.arena@[j] is None,
            decreases length - self.i,
        {
            if self.arena.memory.is_allocated(self.i) {
                let h = ArenaHandle::new(self.i, self.arena.generations[self.i]);
                self.i = self.i + 1;
                return Some(h);
            }
            self.i = self.i + 1;
        }
        None
    }
}


/// Destroying a handle's slot leaves the handle invalid: the slot is empty
/// and its generation no longer matches, so by the contracts of `create`,
/// `destroy`, `read_lock` and `write_lock`, every later arena operation on
/// this handle reports `DoesNotExist` rather than touching the slot.
pub proof fn lemma_destroy_invalidates_handle<T>(pre: Arena<T>, post: Arena<T>, h: ArenaHandle<T>)
    requires
        pre.valid_handle(h),
        post@.len() == pre@.len(),
        post@ == pre@.update(h.index as int, None::<T>),
        post.gens().len() == pre.gens().len(),
        post.gens()[h.index as int] != h.generation,
    ensures
        !post.valid_handle(h),
{
}

/// A handle that has gone stale stays stale when its slot is reused:
/// `create` never changes the generation table, so the mismatch that
/// invalidated the handle survives the slot's next occupant, and the
/// handle can never silently alias it.
pub proof fn lemma_reuse_keeps_handle_invalid<T>(pre: Arena<T>, post: Arena<T>, h: ArenaHandle<T>)
    requires
        h.index < pre@.len(),
        pre.gens()[h.index as int] != h.generation,
        post.gens() == pre.gens(),
        post@.len() == pre@.len(),
    ensures
        !post.valid_handle(h),
{
}

} // verus!
