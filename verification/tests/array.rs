//! The behaviour of the array on concrete values, for both named configurations.

use rxarray::{BorrowEntry, Entry, ForeignOwnable, XArray};

// `XArray` carries no explicit `Send`/`Sync` impl: the auto-derived bounds follow `T`. These
// assertions fail to compile if that ever stops holding.
fn assert_send<T: Send>() {}
fn assert_sync<T: Sync>() {}

fn assert_auto_traits_impl<
    T: ForeignOwnable + Send + Sync,
    const SHIFT: usize,
    const SIZE: usize,
>() {
    assert_send::<XArray<T, SHIFT, SIZE>>();
    assert_sync::<XArray<T, SHIFT, SIZE>>();
}

#[test]
fn assert_auto_traits() {
    assert_auto_traits_impl::<Box<u64>, 4, 16>();
    assert_auto_traits_impl::<Box<u64>, 6, 64>();
}

fn new_is_empty_impl<T: ForeignOwnable, const SHIFT: usize, const SIZE: usize>() {
    let xa = XArray::<T, SHIFT, SIZE>::new();
    assert!(xa.is_empty());
    assert!(xa.load(0).is_none());
    assert!(xa.load(usize::MAX).is_none());
}

#[test]
fn new_is_empty() {
    new_is_empty_impl::<Box<u64>, 4, 16>();
    new_is_empty_impl::<Box<u64>, 6, 64>();
}

fn store_load_value_impl<T: ForeignOwnable, const SHIFT: usize, const SIZE: usize>() {
    let mut xa = XArray::<T, SHIFT, SIZE>::new();
    let old = xa.store(0, Entry::new_int::<137>()).unwrap();
    assert!(old.is_none());
    assert!(!xa.is_empty());

    match xa.load(0) {
        Some(BorrowEntry::Int(v)) => assert_eq!(v, 137),
        _ => panic!("expected Int"),
    };
}

#[test]
fn store_load_value() {
    store_load_value_impl::<Box<u64>, 4, 16>();
    store_load_value_impl::<Box<u64>, 6, 64>();
}

fn overwrite_value_impl<T: ForeignOwnable, const SHIFT: usize, const SIZE: usize>() {
    let mut xa = XArray::<T, SHIFT, SIZE>::new();
    xa.store(137, Entry::new_int::<1001>()).unwrap();
    let old = xa.store(137, Entry::new_int::<2002>()).unwrap();

    match old {
        Some(Entry::Int(v)) => assert_eq!(v, 1001),
        _ => panic!("expected old Int"),
    }
    match xa.load(137) {
        Some(BorrowEntry::Int(v)) => assert_eq!(v, 2002),
        _ => panic!("expected Int"),
    };
}

#[test]
fn overwrite_value() {
    overwrite_value_impl::<Box<u64>, 4, 16>();
    overwrite_value_impl::<Box<u64>, 6, 64>();
}

fn erase_value_impl<T: ForeignOwnable, const SHIFT: usize, const SIZE: usize>() {
    let mut xa = XArray::<T, SHIFT, SIZE>::new();
    xa.store(137, Entry::new_int::<1001>()).unwrap();
    xa.store(138, Entry::new_int::<1002>()).unwrap();
    xa.store(139, Entry::new_int::<1003>()).unwrap();

    let old = xa.erase(138);
    match old {
        Some(Entry::Int(v)) => assert_eq!(v, 1002),
        _ => panic!("expected erased Int"),
    }
    assert!(xa.load(138).is_none());

    match xa.load(137) {
        Some(BorrowEntry::Int(v)) => assert_eq!(v, 1001),
        _ => panic!("expected Int at neighbor"),
    }
    match xa.load(139) {
        Some(BorrowEntry::Int(v)) => assert_eq!(v, 1003),
        _ => panic!("expected Int at neighbor"),
    };
}

#[test]
fn erase_value() {
    erase_value_impl::<Box<u64>, 4, 16>();
    erase_value_impl::<Box<u64>, 6, 64>();
}

// Two paths: (1) empty tree with no nodes allocated, (2) intermediate nodes exist but the
// target leaf slot was never stored.
fn erase_nonexistent_impl<T: ForeignOwnable, const SHIFT: usize, const SIZE: usize>() {
    let mut xa = XArray::<T, SHIFT, SIZE>::new();
    assert!(xa.erase(999).is_none());

    // Intermediate nodes exist for index 0; index 1 shares the same leaf node but its slot was
    // never populated.
    xa.store(0, Entry::new_int::<1>()).unwrap();
    assert!(xa.erase(1).is_none());
    match xa.load(0) {
        Some(BorrowEntry::Int(v)) => assert_eq!(v, 1),
        _ => panic!("expected Int after erasing neighbor"),
    };
}

#[test]
fn erase_nonexistent() {
    erase_nonexistent_impl::<Box<u64>, 4, 16>();
    erase_nonexistent_impl::<Box<u64>, 6, 64>();
}

// After erase frees intermediate nodes, re-store at the same index must re-allocate them.
fn erase_and_restore_impl<T: ForeignOwnable, const SHIFT: usize, const SIZE: usize>() {
    let mut xa = XArray::<T, SHIFT, SIZE>::new();
    xa.store(137, Entry::new_int::<1001>()).unwrap();

    let erased = xa.erase(137);
    match erased {
        Some(Entry::Int(v)) => assert_eq!(v, 1001),
        _ => panic!("expected erased Int"),
    }
    assert!(xa.load(137).is_none());

    let old = xa.store(137, Entry::new_int::<2002>()).unwrap();
    assert!(old.is_none());
    match xa.load(137) {
        Some(BorrowEntry::Int(v)) => assert_eq!(v, 2002),
        _ => panic!("expected Int"),
    };
}

#[test]
fn erase_and_restore() {
    erase_and_restore_impl::<Box<u64>, 4, 16>();
    erase_and_restore_impl::<Box<u64>, 6, 64>();
}

// Stores at node boundaries to exercise tree structure:
// - SIZE-1: last slot in the first leaf node.
// - SIZE: first index requiring a second leaf node.
// - SIZE*SIZE-1: last index in the first level-1 subtree.
// - SIZE*SIZE: first index requiring a third tree level.
fn store_at_boundaries_impl<T: ForeignOwnable, const SHIFT: usize, const SIZE: usize>() {
    let mut xa = XArray::<T, SHIFT, SIZE>::new();
    xa.store(SIZE - 1, Entry::new_int::<0xA>()).unwrap();
    xa.store(SIZE, Entry::new_int::<0xB>()).unwrap();
    xa.store(SIZE * SIZE - 1, Entry::new_int::<0xC>()).unwrap();
    xa.store(SIZE * SIZE, Entry::new_int::<0xD>()).unwrap();

    match xa.load(SIZE - 1) {
        Some(BorrowEntry::Int(v)) => assert_eq!(v, 0xA),
        _ => panic!("expected Int at SIZE-1"),
    }
    match xa.load(SIZE) {
        Some(BorrowEntry::Int(v)) => assert_eq!(v, 0xB),
        _ => panic!("expected Int at SIZE"),
    }
    match xa.load(SIZE * SIZE - 1) {
        Some(BorrowEntry::Int(v)) => assert_eq!(v, 0xC),
        _ => panic!("expected Int at SIZE*SIZE-1"),
    }
    match xa.load(SIZE * SIZE) {
        Some(BorrowEntry::Int(v)) => assert_eq!(v, 0xD),
        _ => panic!("expected Int at SIZE*SIZE"),
    }
    assert!(xa.load(0).is_none());
}

#[test]
fn store_at_boundaries() {
    store_at_boundaries_impl::<Box<u64>, 4, 16>();
    store_at_boundaries_impl::<Box<u64>, 6, 64>();
}

// For XArray6 this allocates 10 intermediate nodes; for XArray4, 15. Erasing verifies cascading
// cleanup frees all intermediate nodes back to the root.
fn store_at_max_index_impl<T: ForeignOwnable, const SHIFT: usize, const SIZE: usize>() {
    let mut xa = XArray::<T, SHIFT, SIZE>::new();
    xa.store(usize::MAX, Entry::new_int::<0xFF>()).unwrap();
    match xa.load(usize::MAX) {
        Some(BorrowEntry::Int(v)) => assert_eq!(v, 0xFF),
        _ => panic!("expected Int at usize::MAX"),
    }
    assert!(xa.load(0).is_none());

    match xa.erase(usize::MAX) {
        Some(Entry::Int(v)) => assert_eq!(v, 0xFF),
        _ => panic!("expected erased Int at usize::MAX"),
    }
    assert!(xa.load(usize::MAX).is_none());
    assert!(xa.is_empty());
}

#[test]
fn store_at_max_index() {
    store_at_max_index_impl::<Box<u64>, 4, 16>();
    store_at_max_index_impl::<Box<u64>, 6, 64>();
}

// SIZE*3 entries spanning multiple leaf nodes. Erases even indices and verifies odd indices
// remain intact. Erase return values are not checked here; that path is covered by erase_value.
fn bulk_operations_impl<T: ForeignOwnable, const SHIFT: usize, const SIZE: usize>() {
    let mut xa = XArray::<T, SHIFT, SIZE>::new();
    let count = SIZE * 3;

    for i in 0..count {
        xa.store(i, Entry::try_int(i * 10).unwrap()).unwrap();
    }

    for i in 0..count {
        if i % 2 == 0 {
            xa.erase(i);
        }
    }

    for i in 0..count {
        match xa.load(i) {
            Some(BorrowEntry::Int(v)) => {
                assert_eq!(i % 2, 1);
                assert_eq!(v, i * 10);
            }
            Some(BorrowEntry::Pointer(_)) => {
                panic!("unexpected Pointer in value-only tree")
            }
            None => assert_eq!(i % 2, 0),
        }
    }
}

#[test]
fn bulk_operations() {
    bulk_operations_impl::<Box<u64>, 4, 16>();
    bulk_operations_impl::<Box<u64>, 6, 64>();
}

// Stores entries in different subtrees (indices 0 and SIZE diverge at level 1), then erases
// both. The second erase cascades cleanup through intermediate nodes that no longer have any
// children.
fn erase_all_restores_empty_impl<T: ForeignOwnable, const SHIFT: usize, const SIZE: usize>() {
    let mut xa = XArray::<T, SHIFT, SIZE>::new();
    xa.store(0, Entry::new_int::<1>()).unwrap();
    xa.store(SIZE, Entry::new_int::<2>()).unwrap();
    assert!(!xa.is_empty());

    xa.erase(0);
    assert!(!xa.is_empty());
    xa.erase(SIZE);
    assert!(xa.is_empty());
}

#[test]
fn erase_all_restores_empty() {
    erase_all_restores_empty_impl::<Box<u64>, 4, 16>();
    erase_all_restores_empty_impl::<Box<u64>, 6, 64>();
}

// Entry::new_int::<0>() encodes as (0 << 1) | 1 = 1; must not be confused with the empty slot
// encoding (0).
fn value_zero_impl<T: ForeignOwnable, const SHIFT: usize, const SIZE: usize>() {
    let mut xa = XArray::<T, SHIFT, SIZE>::new();
    xa.store(0, Entry::new_int::<0>()).unwrap();
    assert!(!xa.is_empty());
    match xa.load(0) {
        Some(BorrowEntry::Int(v)) => assert_eq!(v, 0),
        _ => panic!("expected Int"),
    }

    match xa.erase(0) {
        Some(Entry::Int(v)) => assert_eq!(v, 0),
        _ => panic!("expected erased Int"),
    }
    assert!(xa.load(0).is_none());
}

#[test]
fn value_zero() {
    value_zero_impl::<Box<u64>, 4, 16>();
    value_zero_impl::<Box<u64>, 6, 64>();
}

// Pointer-specific tests (ForeignOwnable path with Box<u64>).

fn store_load_pointer_impl<const SHIFT: usize, const SIZE: usize>() {
    let mut xa = XArray::<Box<u64>, SHIFT, SIZE>::new();
    let boxed = Box::new(42u64);
    let old = xa.store(0, Entry::Pointer(boxed)).unwrap();
    assert!(old.is_none());

    match xa.load(0) {
        Some(BorrowEntry::Pointer(val)) => assert_eq!(*val, 42u64),
        _ => panic!("expected Pointer"),
    }
}

#[test]
fn store_load_pointer() {
    store_load_pointer_impl::<4, 16>();
    store_load_pointer_impl::<6, 64>();
}

// Erase returns the owned Box.
fn erase_returns_pointer_impl<const SHIFT: usize, const SIZE: usize>() {
    let mut xa = XArray::<Box<u64>, SHIFT, SIZE>::new();
    let boxed = Box::new(99u64);
    xa.store(5, Entry::Pointer(boxed)).unwrap();

    match xa.erase(5) {
        Some(Entry::Pointer(owned)) => assert_eq!(*owned, 99u64),
        _ => panic!("expected owned Pointer"),
    }
    assert!(xa.load(5).is_none());
}

#[test]
fn erase_returns_pointer() {
    erase_returns_pointer_impl::<4, 16>();
    erase_returns_pointer_impl::<6, 64>();
}

fn overwrite_pointer_with_value_impl<const SHIFT: usize, const SIZE: usize>() {
    let mut xa = XArray::<Box<u64>, SHIFT, SIZE>::new();
    let boxed = Box::new(42u64);
    xa.store(0, Entry::Pointer(boxed)).unwrap();

    let old = xa.store(0, Entry::new_int::<137>()).unwrap();
    match old {
        Some(Entry::Pointer(p)) => assert_eq!(*p, 42u64),
        _ => panic!("expected old Pointer"),
    }
    match xa.load(0) {
        Some(BorrowEntry::Int(v)) => assert_eq!(v, 137),
        _ => panic!("expected Int"),
    }
}

#[test]
fn overwrite_pointer_with_value() {
    overwrite_pointer_with_value_impl::<4, 16>();
    overwrite_pointer_with_value_impl::<6, 64>();
}

fn overwrite_value_with_pointer_impl<const SHIFT: usize, const SIZE: usize>() {
    let mut xa = XArray::<Box<u64>, SHIFT, SIZE>::new();
    xa.store(0, Entry::new_int::<137>()).unwrap();

    let boxed = Box::new(42u64);
    let old = xa.store(0, Entry::Pointer(boxed)).unwrap();
    match old {
        Some(Entry::Int(v)) => assert_eq!(v, 137),
        _ => panic!("expected old Int"),
    }
    match xa.load(0) {
        Some(BorrowEntry::Pointer(val)) => assert_eq!(*val, 42u64),
        _ => panic!("expected Pointer"),
    }
}

#[test]
fn overwrite_value_with_pointer() {
    overwrite_value_with_pointer_impl::<4, 16>();
    overwrite_value_with_pointer_impl::<6, 64>();
}

fn mixed_values_and_pointers_impl<const SHIFT: usize, const SIZE: usize>() {
    let mut xa = XArray::<Box<u64>, SHIFT, SIZE>::new();
    let boxed = Box::new(42u64);
    xa.store(0, Entry::new_int::<100>()).unwrap();
    xa.store(1, Entry::Pointer(boxed)).unwrap();

    match xa.load(0) {
        Some(BorrowEntry::Int(v)) => assert_eq!(v, 100),
        _ => panic!("expected Int"),
    }
    match xa.load(1) {
        Some(BorrowEntry::Pointer(val)) => assert_eq!(*val, 42u64),
        _ => panic!("expected Pointer"),
    }
}

#[test]
fn mixed_values_and_pointers() {
    mixed_values_and_pointers_impl::<4, 16>();
    mixed_values_and_pointers_impl::<6, 64>();
}

// Drops a tree with mixed Int (even indices) and Pointer (odd indices) entries.
fn drop_frees_pointers_impl<const SHIFT: usize, const SIZE: usize>() {
    let mut xa = XArray::<Box<u64>, SHIFT, SIZE>::new();
    let count = SIZE * 2;
    for i in 0..count {
        if i % 2 == 0 {
            xa.store(i, Entry::try_int(i * 10).unwrap()).unwrap();
        } else {
            let b = Box::new(i as u64);
            xa.store(i, Entry::Pointer(b)).unwrap();
        }
    }
}

#[test]
fn drop_frees_pointers() {
    drop_frees_pointers_impl::<4, 16>();
    drop_frees_pointers_impl::<6, 64>();
}

// usize::MAX >> 1 is the maximum valid integer entry. Exercises both Entry::new_int and
// Entry::try_int.
fn value_encoding_boundary_impl<T: ForeignOwnable, const SHIFT: usize, const SIZE: usize>() {
    let mut xa = XArray::<T, SHIFT, SIZE>::new();
    let max = usize::MAX >> 1;

    // try_int accepts max, rejects max+1.
    assert!(Entry::<T>::try_int(max).is_some());
    assert!(Entry::<T>::try_int(max + 1).is_none());
    assert!(Entry::<T>::try_int(usize::MAX).is_none());

    // new_int takes max.
    xa.store(0, Entry::new_int::<{ usize::MAX >> 1 }>()).unwrap();
    match xa.load(0) {
        Some(BorrowEntry::Int(v)) => assert_eq!(v, max),
        _ => panic!("expected max value"),
    };
}

#[test]
fn value_encoding_boundary() {
    value_encoding_boundary_impl::<Box<u64>, 4, 16>();
    value_encoding_boundary_impl::<Box<u64>, 6, 64>();
}

fn overwrite_pointer_with_pointer_impl<const SHIFT: usize, const SIZE: usize>() {
    let mut xa = XArray::<Box<u64>, SHIFT, SIZE>::new();
    let first = Box::new(42u64);
    xa.store(0, Entry::Pointer(first)).unwrap();

    let second = Box::new(99u64);
    let old = xa.store(0, Entry::Pointer(second)).unwrap();
    match old {
        Some(Entry::Pointer(p)) => assert_eq!(*p, 42u64),
        _ => panic!("expected old Pointer"),
    }
    match xa.load(0) {
        Some(BorrowEntry::Pointer(val)) => assert_eq!(*val, 99u64),
        _ => panic!("expected new Pointer"),
    }
}

#[test]
fn overwrite_pointer_with_pointer() {
    overwrite_pointer_with_pointer_impl::<4, 16>();
    overwrite_pointer_with_pointer_impl::<6, 64>();
}

fn erase_at_boundaries_impl<T: ForeignOwnable, const SHIFT: usize, const SIZE: usize>() {
    let mut xa = XArray::<T, SHIFT, SIZE>::new();
    xa.store(SIZE - 1, Entry::new_int::<0xA>()).unwrap();
    xa.store(SIZE, Entry::new_int::<0xB>()).unwrap();
    xa.store(SIZE * SIZE - 1, Entry::new_int::<0xC>()).unwrap();
    xa.store(SIZE * SIZE, Entry::new_int::<0xD>()).unwrap();

    match xa.erase(SIZE * SIZE) {
        Some(Entry::Int(v)) => assert_eq!(v, 0xD),
        _ => panic!("expected erased Int at SIZE*SIZE"),
    }
    match xa.erase(SIZE * SIZE - 1) {
        Some(Entry::Int(v)) => assert_eq!(v, 0xC),
        _ => panic!("expected erased Int at SIZE*SIZE-1"),
    }
    match xa.erase(SIZE) {
        Some(Entry::Int(v)) => assert_eq!(v, 0xB),
        _ => panic!("expected erased Int at SIZE"),
    }
    match xa.erase(SIZE - 1) {
        Some(Entry::Int(v)) => assert_eq!(v, 0xA),
        _ => panic!("expected erased Int at SIZE-1"),
    }
    assert!(xa.is_empty());
}

#[test]
fn erase_at_boundaries() {
    erase_at_boundaries_impl::<Box<u64>, 4, 16>();
    erase_at_boundaries_impl::<Box<u64>, 6, 64>();
}

// Erasing the sole pointer must return the owned Box and free all intermediate nodes.
fn erase_last_pointer_cascading_impl<const SHIFT: usize, const SIZE: usize>() {
    let mut xa = XArray::<Box<u64>, SHIFT, SIZE>::new();
    let boxed = Box::new(777u64);
    xa.store(0, Entry::Pointer(boxed)).unwrap();

    match xa.erase(0) {
        Some(Entry::Pointer(p)) => assert_eq!(*p, 777u64),
        _ => panic!("expected owned Pointer"),
    }
    assert!(xa.is_empty());
}

#[test]
fn erase_last_pointer_cascading() {
    erase_last_pointer_cascading_impl::<4, 16>();
    erase_last_pointer_cascading_impl::<6, 64>();
}
