//! What an array stores at an index, owned and borrowed.

use vstd::prelude::*;

use crate::foreign::ForeignOwnable;
use crate::value::{Value, MAX_VALUE};

verus! {

/// An entry is either an [`Entry::Int`] integer (`0..=usize::MAX >> 1`) or an owned
/// [`Entry::Pointer`].
///
/// An empty slot is represented by [`None`], not by a variant.
pub enum Entry<T: ForeignOwnable> {
    /// Integer value (`0..=usize::MAX >> 1`).
    Int(Value),
    /// Pointer payload, owned.
    Pointer(T),
}

impl<T: ForeignOwnable> Entry<T> {
    /// Creates an [`Entry::Int`] from a constant that is in range.
    pub fn new_int<const V: usize>() -> (r: Self)
        requires
            V <= MAX_VALUE,
        ensures
            r == Entry::<T>::Int(Value::of(V)),
            r matches Entry::Int(value) && value@ == V,
    {
        Entry::Int(Value::new::<V>())
    }

    /// Creates an [`Entry::Int`] if `v` is in range.
    ///
    /// Returns [`None`] if `v > usize::MAX >> 1`.
    pub fn try_int(v: usize) -> (r: Option<Self>)
        ensures
            r == (if v <= MAX_VALUE {
                Some(Entry::<T>::Int(Value::of(v)))
            } else {
                None
            }),
            r is Some <==> v <= usize::MAX / 2,
            r matches Some(entry) ==> (entry matches Entry::Int(value) && value@ == v),
    {
        match Value::try_new(v) {
            Some(value) => Some(Entry::Int(value)),
            None => None,
        }
    }

    /// The borrowed form of this entry.
    pub open spec fn borrowed<'a>(&'a self) -> BorrowEntry<'a, T> {
        match self {
            Entry::Int(v) => BorrowEntry::Int(*v),
            Entry::Pointer(p) => BorrowEntry::Pointer(p.borrowed()),
        }
    }
}

/// A borrowed entry, containing either an integer or a borrowed pointer.
pub enum BorrowEntry<'a, T: ForeignOwnable + 'a> {
    /// Integer value (`0..=usize::MAX >> 1`).
    Int(Value),
    /// Pointer payload, borrowed.
    Pointer(T::Borrowed<'a>),
}

/// The entry at `index` of `entries`, or [`None`] where there is none.
pub open spec fn entry_at<T: ForeignOwnable>(
    entries: Map<usize, Entry<T>>,
    index: usize,
) -> Option<Entry<T>> {
    if entries.contains_key(index) {
        Some(entries[index])
    } else {
        None
    }
}

/// The borrowed form of an optional entry.
pub open spec fn borrowed_entry<'a, T: ForeignOwnable>(
    entry: &'a Option<Entry<T>>,
) -> Option<BorrowEntry<'a, T>> {
    match entry {
        Some(e) => Some(e.borrowed()),
        None => None,
    }
}

} // verus!
