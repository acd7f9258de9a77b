//! Heap allocations that can be refused.

use std::collections::TryReserveError;
use vstd::prelude::*;

use crate::error::Error;

verus! {

/// An owned heap allocation of one value, made only where memory can be had.
///
/// It is a list of one element: lists are what std can grow without giving up the process.
pub struct TryBox<V> {
    cell: Vec<V>,
}

impl<V> View for TryBox<V> {
    type V = V;

    /// The value.
    closed spec fn view(&self) -> V {
        self.cell@[0]
    }
}

impl<V> TryBox<V> {
    /// There is one value.
    #[verifier::type_invariant]
    closed spec fn holds_one(self) -> bool {
        self.cell@.len() == 1
    }

    /// The allocator has refused room for one value in an empty list.
    pub open spec fn no_room() -> bool {
        exists|cell: &mut Vec<V>, why: TryReserveError|
            cell@.len() == 0 && #[trigger] call_ensures(
                Vec::<V>::try_reserve,
                (cell, 1usize),
                Err::<(), TryReserveError>(why),
            )
    }

    /// Moves `value` to the heap if memory for it can be allocated.
    ///
    /// Whether it can is up to the allocator; [`Self::from_reserved`] says what is returned either
    /// way.
    pub fn new(value: V) -> (r: Result<Self, Error>)
        ensures
            match r {
                Ok(boxed) => boxed@ == value,
                Err(e) => e == Error::ENOMEM && Self::no_room(),
            },
    {
        let mut cell: Vec<V> = Vec::new();
        let reserved = Vec::<V>::try_reserve(&mut cell, 1usize);
        assert(reserved is Err ==> Self::no_room()) by {
            if let Err(why) = reserved {
                assert(exists|room: &mut Vec<V>|
                    room@.len() == 0 && #[trigger] call_ensures(
                        Vec::<V>::try_reserve,
                        (room, 1usize),
                        Err::<(), TryReserveError>(why),
                    ));
            }
        }
        Self::from_reserved(cell, reserved, value)
    }

    /// Moves `value` into the empty list `cell`, given what came of reserving memory in it.
    pub fn from_reserved(
        cell: Vec<V>,
        reserved: Result<(), TryReserveError>,
        value: V,
    ) -> (r: Result<Self, Error>)
        requires
            cell@.len() == 0,
        ensures
            match reserved {
                Ok(_) => r matches Ok(boxed) && boxed@ == value,
                Err(_) => r == Err::<Self, Error>(Error::ENOMEM),
            },
    {
        match reserved {
            Ok(_) => {
                let mut cell: Vec<V> = cell;
                cell.push(value);
                Ok(TryBox { cell })
            },
            Err(_) => Err(Error::ENOMEM),
        }
    }

    /// Returns a shared reference to the value.
    pub fn get(&self) -> (r: &V)
        ensures
            *r == self@,
    {
        proof {
            use_type_invariant(self);
        }
        &self.cell[0]
    }

    /// Returns a mutable reference to the value.
    pub fn get_mut(&mut self) -> (r: &mut V)
        ensures
            *r == old(self)@,
            final(self)@ == *final(r),
    {
        proof {
            use_type_invariant(&*self);
        }
        &mut self.cell[0]
    }
}

} // verus!
