//! The array itself.

use std::collections::TryReserveError;
use vstd::arithmetic::power2::pow2;
use vstd::prelude::*;

use crate::entry::{borrowed_entry, entry_at, BorrowEntry, Entry};
use crate::error::Error;
use crate::foreign::ForeignOwnable;
use crate::index::{
    lemma_level_count, lemma_same_below_all, level_count, nodes_lacking, same_below, valid_shape,
};
use crate::laws::law_same_leaf_allocates_nothing;
use crate::node::{Node, Supply};
use crate::spare::SpareNodes;

verus! {

/// The least alignment of what a pointer entry points to.
pub const MIN_ALIGN: usize = 4;

/// Type alias for [`XArray`] with a shift of 4 and 16 slots per node.
pub type XArray4<T> = XArray<T, 4, 16>;

/// Type alias for [`XArray`] with a shift of 6 and 64 slots per node.
pub type XArray6<T> = XArray<T, 6, 64>;

/// An extensible array backed by a radix tree, mapping `usize` indices to [`Entry`] values.
///
/// # Ownership
///
/// The array owns the pointers that are stored in it. Dropping the array drops every one of them.
///
/// # Invariants
///
/// - What a pointer entry points to is aligned to at least [`MIN_ALIGN`] bytes, so that the words
///   of pointers are apart from those of integers and of nodes.
/// - `SHIFT > 0` and `SIZE == 1 << SHIFT`.
/// - Interior levels (level > 0) contain only empty slots and child nodes. The leaf level (level 0)
///   contains only empty slots and entries.
/// - There is an entry under every node below the root, so that the entries alone determine which
///   nodes there are.
pub struct XArray<T: ForeignOwnable, const SHIFT: usize, const SIZE: usize> {
    root: Node<T, SHIFT, SIZE>,
}

impl<T: ForeignOwnable, const SHIFT: usize, const SIZE: usize> View for XArray<T, SHIFT, SIZE> {
    type V = Map<usize, Entry<T>>;

    /// The entries, each at its index.
    closed spec fn view(&self) -> Map<usize, Entry<T>> {
        Map::new(
            |index: usize| self.root.get(index, Self::top()) is Some,
            |index: usize| self.root.get(index, Self::top())->0,
        )
    }
}

impl<T: ForeignOwnable, const SHIFT: usize, const SIZE: usize> XArray<T, SHIFT, SIZE> {
    /// The level of the root.
    pub open spec fn top() -> nat {
        (level_count(SHIFT as nat) - 1) as nat
    }

    /// The invariants hold.
    pub closed spec fn wf(self) -> bool {
        &&& valid_shape(SHIFT, SIZE)
        &&& T::foreign_align() >= MIN_ALIGN
        &&& self.root.wf(Self::top())
    }

    /// A well-formed array has a valid shape, and its pointers are aligned.
    pub proof fn lemma_wf_shape(self)
        requires
            self.wf(),
        ensures
            valid_shape(SHIFT, SIZE),
            T::foreign_align() >= MIN_ALIGN,
            0 < SHIFT < usize::BITS,
            SIZE == pow2(SHIFT as nat),
            T::foreign_align() >= 4,
    {
    }

    /// Tells whether arrays of this type can be made: whether `SHIFT > 0`, `SIZE == 1 << SHIFT`,
    /// and what a pointer entry points to is aligned to at least [`MIN_ALIGN`] bytes.
    pub fn validate() -> (r: bool)
        ensures
            r == (valid_shape(SHIFT, SIZE) && T::foreign_align() >= MIN_ALIGN),
            r == (0 < SHIFT < usize::BITS && SIZE == pow2(SHIFT as nat) && T::foreign_align() >= 4),
    {
        if SHIFT == 0 || SHIFT >= usize::BITS as usize {
            return false;
        }
        proof {
            vstd::bits::lemma_usize_pow2_no_overflow(SHIFT as nat);
            vstd::bits::lemma_usize_shl_is_mul(1, SHIFT);
        }
        SIZE == (1usize << SHIFT) && T::align() >= MIN_ALIGN
    }

    /// Creates an empty array. Nothing is allocated: the root is part of the array.
    ///
    /// An associated function rather than an impl of the trait of that name, which could not ask
    /// for a valid shape.
    pub fn default() -> (r: Self)
        requires
            valid_shape(SHIFT, SIZE),
            T::foreign_align() >= MIN_ALIGN,
        ensures
            r.wf(),
            r@ == Map::<usize, Entry<T>>::empty(),
    {
        let root: Node<T, SHIFT, SIZE> = Node::new();
        proof {
            root.lemma_vacant(Self::top());
        }
        let r = XArray { root };
        assert(r@ =~= Map::<usize, Entry<T>>::empty());
        r
    }

    /// Creates a new empty array.
    pub fn new() -> (r: Self)
        requires
            valid_shape(SHIFT, SIZE),
            T::foreign_align() >= MIN_ALIGN,
        ensures
            r.wf(),
            r@ == Map::<usize, Entry<T>>::empty(),
    {
        Self::default()
    }

    /// Returns the number of levels in the tree.
    fn levels() -> (r: usize)
        requires
            valid_shape(SHIFT, SIZE),
        ensures
            r == level_count(SHIFT as nat),
            r > 0,
            (r - 1) * SHIFT < usize::BITS,
    {
        proof {
            lemma_level_count(SHIFT as nat);
        }
        (usize::BITS as usize + SHIFT - 1) / SHIFT
    }

    /// Returns `true` if the tree contains no entries.
    pub fn is_empty(&self) -> (r: bool)
        requires
            self.wf(),
        ensures
            r == (self@ =~= Map::<usize, Entry<T>>::empty()),
            r == (forall|index: usize| !self@.contains_key(index)),
    {
        proof {
            if self.root.vacant() {
                self.root.lemma_vacant(Self::top());
                assert(self@ =~= Map::empty());
            } else {
                let j = self.root.lemma_occupied(Self::top());
                assert(self@.contains_key(j));
            }
        }
        self.root.is_empty()
    }

    /// Erases the entry at `index`.
    ///
    /// Returns the previous entry, or [`None`] if the slot was empty. Empty intermediate nodes are
    /// freed during traversal.
    pub fn erase(&mut self, index: usize) -> (r: Option<Entry<T>>)
        requires
            old(self).wf(),
        ensures
            final(self).wf(),
            final(self)@ == old(self)@.remove(index),
            r == entry_at(old(self)@, index),
            r is Some <==> old(self)@.contains_key(index),
            r matches Some(entry) ==> entry == old(self)@[index],
    {
        let levels: usize = Self::levels();
        let r = self.root.erase(index, levels - 1);
        proof {
            assert forall|j: usize| #[trigger]
                same_below(SHIFT as nat, j, index, level_count(SHIFT as nat)) == (j == index) by {
                lemma_same_below_all(SHIFT as nat, j, index);
            }
            assert(self@ =~= old(self)@.remove(index));
        }
        r
    }

    /// The number of nodes that an array with these keys has to allocate to store at `index`.
    pub open spec fn lacking(keys: Set<usize>, index: usize) -> nat {
        nodes_lacking(keys, SHIFT as nat, index, Self::top())
    }

    /// Returns the number of nodes that a store at `index` has to allocate.
    pub fn nodes_needed(&self, index: usize) -> (r: usize)
        requires
            self.wf(),
        ensures
            r == Self::lacking(self@.dom(), index),
    {
        let levels: usize = Self::levels();
        proof {
            self.root.lemma_missing_is_lacking(self@.dom(), index, Self::top());
        }
        self.root.count_missing(index, levels - 1)
    }

    /// Stores an entry at `index`, allocating intermediate nodes as needed.
    ///
    /// Returns the previous entry, or [`None`] if the slot was empty.
    ///
    /// # Errors
    ///
    /// Returns [`Error::ENOMEM`] if a new intermediate node cannot be allocated. The entry is then
    /// dropped and the array keeps the entries that it had.
    pub fn store(&mut self, index: usize, entry: Entry<T>) -> (r: Result<Option<Entry<T>>, Error>)
        requires
            old(self).wf(),
        ensures
            final(self).wf(),
            match r {
                Ok(previous) => {
                    &&& previous == entry_at(old(self)@, index)
                    &&& previous is Some <==> old(self)@.contains_key(index)
                    &&& previous matches Some(replaced) ==> replaced == old(self)@[index]
                    &&& final(self)@ == old(self)@.insert(index, entry)
                },
                Err(e) => {
                    &&& e == Error::ENOMEM
                    &&& final(self)@ == old(self)@
                    &&& !old(self)@.contains_key(index)
                    &&& Self::lacking(old(self)@.dom(), index) > 0
                    &&& SpareNodes::<T, SHIFT, SIZE>::refused()
                    &&& exists|cell: &mut Vec<Node<T, SHIFT, SIZE>>, why: TryReserveError|
                        cell@.len() == 0 && #[trigger] call_ensures(
                            Vec::<Node<T, SHIFT, SIZE>>::try_reserve,
                            (cell, 1usize),
                            Err::<(), TryReserveError>(why),
                        )
                },
            },
    {
        proof {
            if self@.contains_key(index) {
                law_same_leaf_allocates_nothing(
                    self@.dom(),
                    SHIFT as nat,
                    index,
                    index,
                    Self::top(),
                );
            }
        }
        self.store_from(index, entry, &mut Supply::Heap)
    }

    /// Stores an entry at `index`, taking intermediate nodes from `spare` as needed.
    ///
    /// Returns the previous entry, or [`None`] if the slot was empty.
    ///
    /// # Errors
    ///
    /// Returns [`Error::ENOMEM`] if there are fewer spare nodes than the store needs. The entry is
    /// then dropped, and the array and the spare nodes stay as they were.
    pub fn store_with(
        &mut self,
        index: usize,
        entry: Entry<T>,
        spare: &mut SpareNodes<T, SHIFT, SIZE>,
    ) -> (r: Result<Option<Entry<T>>, Error>)
        requires
            old(self).wf(),
        ensures
            final(self).wf(),
            Self::lacking(old(self)@.dom(), index) <= old(spare)@ ==> {
                &&& r == Ok::<Option<Entry<T>>, Error>(entry_at(old(self)@, index))
                &&& r->Ok_0 is Some <==> old(self)@.contains_key(index)
                &&& r->Ok_0 matches Some(replaced) ==> replaced == old(self)@[index]
                &&& final(self)@ == old(self)@.insert(index, entry)
                &&& final(spare)@ == old(spare)@ - Self::lacking(old(self)@.dom(), index)
            },
            Self::lacking(old(self)@.dom(), index) > old(spare)@ ==> {
                &&& r == Err::<Option<Entry<T>>, Error>(Error::ENOMEM)
                &&& final(self)@ == old(self)@
                &&& final(spare)@ == old(spare)@
            },
    {
        let mut supply: Supply<T, SHIFT, SIZE> = Supply::Spare(spare.take());
        let r = self.store_from(index, entry, &mut supply);
        if let Supply::Spare(nodes) = supply {
            spare.put(nodes);
        }
        r
    }

    /// Stores an entry at `index`, taking intermediate nodes from `supply` as needed.
    fn store_from(
        &mut self,
        index: usize,
        entry: Entry<T>,
        supply: &mut Supply<T, SHIFT, SIZE>,
    ) -> (r: Result<Option<Entry<T>>, Error>)
        requires
            old(self).wf(),
            old(supply).ready(),
        ensures
            final(self).wf(),
            final(supply).ready(),
            (*final(supply) is Heap) == (*old(supply) is Heap),
            match r {
                Ok(previous) => {
                    &&& previous == entry_at(old(self)@, index)
                    &&& final(self)@ == old(self)@.insert(index, entry)
                    &&& *old(supply) is Spare ==> final(supply).count() == old(supply).count()
                        - Self::lacking(old(self)@.dom(), index)
                },
                Err(e) => {
                    &&& e == Error::ENOMEM
                    &&& final(self)@ == old(self)@
                    &&& final(supply).count() == old(supply).count()
                    &&& Self::lacking(old(self)@.dom(), index) > old(supply).count()
                    &&& *old(supply) is Heap ==> Node::<T, SHIFT, SIZE>::refused()
                },
            },
    {
        let levels: usize = Self::levels();
        proof {
            self.root.lemma_missing_is_lacking(self@.dom(), index, Self::top());
        }
        let r = self.root.store(index, entry, levels - 1, supply);
        proof {
            assert forall|j: usize| #[trigger]
                same_below(SHIFT as nat, j, index, level_count(SHIFT as nat)) == (j == index) by {
                lemma_same_below_all(SHIFT as nat, j, index);
            }
            match r {
                Ok(_) => assert(self@ =~= old(self)@.insert(index, entry)),
                Err(_) => assert(self@ =~= old(self)@),
            }
        }
        r
    }

    /// Loads the entry at `index`.
    ///
    /// Returns a borrowed view of the entry, or [`None`] if the slot is empty. Pointer entries
    /// are returned as `T::Borrowed<'_>` (e.g., `&V` for `Box<V>`).
    pub fn load(&self, index: usize) -> (r: Option<BorrowEntry<'_, T>>)
        requires
            self.wf(),
        ensures
            r == borrowed_entry(&entry_at(self@, index)),
            r is Some <==> self@.contains_key(index),
            self@.contains_key(index) ==> match self@[index] {
                Entry::Int(v) => r matches Some(BorrowEntry::Int(w)) && w == v && w@ == v@,
                Entry::Pointer(p) => r matches Some(BorrowEntry::Pointer(b)) && b == p.borrowed(),
            },
    {
        let levels: usize = Self::levels();
        self.root.load(index, levels - 1)
    }
}

} // verus!
