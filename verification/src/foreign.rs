//! Owned pointers that an entry can hold.

use vstd::prelude::*;

verus! {

/// An owned pointer that can be lent out while the array keeps it.
///
/// An array moves such a value into a slot when it is stored and moves it out again when it is
/// erased or overwritten; it never looks inside.
pub trait ForeignOwnable: Sized + 'static {
    /// The alignment of what the pointer points to.
    spec fn foreign_align() -> nat;

    /// Returns the alignment of what the pointer points to.
    fn align() -> (r: usize)
        ensures
            r == Self::foreign_align(),
    ;

    /// What a borrower of the pointer sees, such as `&V` for `Box<V>`.
    type Borrowed<'a>;

    /// The borrowed form of this pointer.
    spec fn borrowed<'a>(&'a self) -> Self::Borrowed<'a>;

    /// Borrows the pointer.
    fn borrow<'a>(&'a self) -> (r: Self::Borrowed<'a>)
        ensures
            r == self.borrowed(),
    ;
}

impl<V: 'static> ForeignOwnable for Box<V> {
    open spec fn foreign_align() -> nat {
        vstd::layout::align_of::<V>()
    }

    fn align() -> (r: usize) {
        core::mem::align_of::<V>()
    }

    type Borrowed<'a> = &'a V;

    open spec fn borrowed<'a>(&'a self) -> &'a V {
        &**self
    }

    fn borrow<'a>(&'a self) -> (r: &'a V) {
        &**self
    }
}

} // verus!
