use voxelcore::arena::{Arena, ArenaError, ArenaHandle};
use voxelcore::pool::{MemoryBlock, MemoryError};

#[test]
fn arena_create_destroy_reuse() {
    // Capacity 3: create three items, destroy the first, create a fourth.
    // The fourth must reuse slot 0, and iteration must yield exactly the
    // three occupied slots 0, 1, 2, none skipped, none duplicated.
    let mut a: Arena<i32> = Arena::new(3);
    let h0 = a.create(10).unwrap();
    let h1 = a.create(20).unwrap();
    let h2 = a.create(30).unwrap();
    assert_eq!(h0.index, 0);
    assert_eq!(h1.index, 1);
    assert_eq!(h2.index, 2);

    a.destroy(h0).unwrap();
    let h3 = a.create(40).unwrap();
    assert_eq!(h3.index, 0);

    let mut it = a.iter();
    let mut seen = Vec::new();
    while let Some(h) = it.next() {
        seen.push(h.index);
    }
    assert_eq!(seen, vec![0, 1, 2]);

    assert_eq!(*a.read_lock(h3).unwrap(), 40);
    assert_eq!(*a.read_lock(h1).unwrap(), 20);
    assert_eq!(*a.read_lock(h2).unwrap(), 30);
}

#[test]
fn arena_destroyed_handle_is_rejected() {
    // Every operation on a destroyed handle reports DoesNotExist, even
    // after the slot is reused by a later create.
    let mut a: Arena<i32> = Arena::new(2);
    let h = a.create(7).unwrap();
    a.destroy(h).unwrap();

    assert_eq!(a.read_lock(h).unwrap_err(), ArenaError::DoesNotExist);
    assert_eq!(a.write_lock(h).unwrap_err(), ArenaError::DoesNotExist);
    assert_eq!(a.destroy(h).unwrap_err(), ArenaError::DoesNotExist);

    let h2 = a.create(8).unwrap();
    assert_eq!(h2.index, h.index);
    assert_eq!(a.read_lock(h).unwrap_err(), ArenaError::DoesNotExist);
    assert_eq!(a.destroy(h).unwrap_err(), ArenaError::DoesNotExist);
    assert_eq!(*a.read_lock(h2).unwrap(), 8);
}

#[test]
fn arena_out_of_memory_and_bounds() {
    let mut a: Arena<u8> = Arena::new(1);
    let _ = a.create(1).unwrap();
    assert_eq!(a.create(2).unwrap_err(), ArenaError::OutOfMemory);

    let wild: ArenaHandle<u8> = ArenaHandle::new(9, 0);
    assert_eq!(a.destroy(wild).unwrap_err(), ArenaError::BoundsExceeded);
    assert_eq!(a.read_lock(wild).unwrap_err(), ArenaError::BoundsExceeded);
}

#[test]
fn arena_write_lock_mutates_in_place() {
    let mut a: Arena<String> = Arena::new(2);
    let h = a.create("hello".to_string()).unwrap();
    {
        let s = a.write_lock(h).unwrap();
        s.push_str(" world");
    }
    assert_eq!(a.read_lock(h).unwrap(), "hello world");
}

#[test]
fn arena_from_iter_loads_in_order() {
    let a: Arena<i32> = Arena::from_iter(4, vec![5, 6]);
    let mut it = a.iter();
    let h0 = it.next().unwrap();
    let h1 = it.next().unwrap();
    assert!(it.next().is_none());
    assert_eq!(*a.read_lock(h0).unwrap(), 5);
    assert_eq!(*a.read_lock(h1).unwrap(), 6);
}

#[test]
fn pool_write_read_drop() {
    let mut p: MemoryBlock<i64> = MemoryBlock::new(2);
    assert_eq!(p.length(), 2);
    assert!(p.bounds_check(1).is_ok());
    assert_eq!(p.bounds_check(2).unwrap_err(), MemoryError::BoundsExceeded);
    assert_eq!(p.allocated_check(0).unwrap_err(), MemoryError::DoesNotExist);

    p.write(0, 44);
    assert!(p.is_allocated(0));
    assert!(p.allocated_check(0).is_ok());
    assert_eq!(*p.read(0), 44);

    *p.get_mut(0) = 45;
    assert_eq!(*p.read(0), 45);

    p.drop(0);
    assert!(!p.is_allocated(0));
}
