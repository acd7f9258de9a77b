//! The nodes of the tree and their slots.

use vstd::prelude::*;

use crate::entry::{borrowed_entry, BorrowEntry, Entry};
use crate::error::Error;
use crate::foreign::ForeignOwnable;
use crate::index::{
    lemma_all_lacking, lemma_level_inside, lemma_offset_in_node, lemma_offset_of_small,
    lemma_same_below_step, lemma_same_below_zero, lemma_same_from_step, lemma_splice, nodes_lacking,
    offset, same_below, same_from, splice, valid_shape,
};
use crate::try_box::TryBox;
use crate::value::Value;
use crate::word;
use crate::word::{kind_of_word, SlotType};

verus! {

/// The internal storage unit of a [`Node`].
///
/// A slot that owns nothing is a tagged word, as [`word`] describes; a slot that owns a pointer
/// entry or a child node holds it.
///
/// # Invariants
///
/// A word is `0` or odd: words of the other kinds are never stored in a slot.
pub enum Slot<T: ForeignOwnable, const SHIFT: usize, const SIZE: usize> {
    /// A tagged word: empty, or an integer entry.
    Word(usize),
    /// A pointer entry.
    Pointer(T),
    /// A child node.
    Node(TryBox<Node<T, SHIFT, SIZE>>),
}

impl<T: ForeignOwnable, const SHIFT: usize, const SIZE: usize> Default for Slot<T, SHIFT, SIZE> {
    /// An empty slot.
    fn default() -> (r: Self)
        ensures
            r == Slot::<T, SHIFT, SIZE>::Word(0),
    {
        Slot::Word(0)
    }
}

impl<T: ForeignOwnable, const SHIFT: usize, const SIZE: usize> Slot<T, SHIFT, SIZE> {
    /// What the slot holds.
    pub open spec fn holds(self) -> SlotType {
        match self {
            Slot::Word(w) => kind_of_word(w),
            Slot::Pointer(_) => SlotType::Pointer,
            Slot::Node(_) => SlotType::Node,
        }
    }

    /// The slot is allowed in a leaf.
    pub open spec fn leaf_ok(self) -> bool {
        match self {
            Slot::Word(w) => kind_of_word(w) == SlotType::Empty || kind_of_word(w) == SlotType::Int,
            Slot::Pointer(_) => true,
            Slot::Node(_) => false,
        }
    }

    /// The entry that the slot encodes, if any.
    pub open spec fn entry(self) -> Option<Entry<T>> {
        match self {
            Slot::Word(w) => if kind_of_word(w) == SlotType::Int {
                Some(Entry::Int(Value::of(w / 2)))
            } else {
                None
            },
            Slot::Pointer(p) => Some(Entry::Pointer(p)),
            Slot::Node(_) => None,
        }
    }

    /// The entry that is found at `index` through this slot of a node at `level > 0`.
    pub open spec fn get_below(self, index: usize, level: nat) -> Option<Entry<T>> {
        match self {
            Slot::Node(child) => child@.get(index, (level - 1) as nat),
            _ => None,
        }
    }

    /// Encodes an entry into a slot.
    pub fn encode(entry: Entry<T>) -> (r: Self)
        ensures
            r.leaf_ok(),
            r.entry() == Some(entry),
            entry matches Entry::Int(v) ==> (r matches Slot::Word(w) && w == word::int_word(v@)),
            entry matches Entry::Pointer(p) ==> r == Slot::<T, SHIFT, SIZE>::Pointer(p),
    {
        match entry {
            Entry::Int(v) => {
                let word: usize = word::encode_int(v);
                proof {
                    Value::lemma_determined_by_integer(word / 2, v);
                }
                Slot::Word(word)
            },
            Entry::Pointer(p) => Slot::Pointer(p),
        }
    }

    /// Decodes a leaf slot into an owned entry, consuming the slot.
    ///
    /// Returns [`None`] for an empty slot.
    pub fn decode(self) -> (r: Option<Entry<T>>)
        requires
            self.leaf_ok(),
        ensures
            r == self.entry(),
    {
        match self {
            Slot::Word(w) => match word::kind(w) {
                SlotType::Int => Some(Entry::Int(word::decode_int(w))),
                _ => None,
            },
            Slot::Pointer(p) => Some(Entry::Pointer(p)),
            Slot::Node(_) => None,
        }
    }

    /// Borrows the entry in a leaf slot without consuming it.
    ///
    /// Returns [`None`] for an empty slot.
    pub fn borrow(&self) -> (r: Option<BorrowEntry<'_, T>>)
        requires
            self.leaf_ok(),
        ensures
            r == borrowed_entry(&self.entry()),
    {
        match self {
            Slot::Word(w) => match word::kind(*w) {
                SlotType::Int => Some(BorrowEntry::Int(word::decode_int(*w))),
                _ => None,
            },
            Slot::Pointer(p) => Some(BorrowEntry::Pointer(p.borrow())),
            Slot::Node(_) => None,
        }
    }

    /// Tells what the slot holds.
    pub fn kind(&self) -> (r: SlotType)
        ensures
            r == self.holds(),
    {
        match self {
            Slot::Word(w) => word::kind(*w),
            Slot::Pointer(_) => SlotType::Pointer,
            Slot::Node(_) => SlotType::Node,
        }
    }

    /// Returns `true` if the slot is empty.
    pub fn is_empty(&self) -> (r: bool)
        ensures
            r == (self.holds() == SlotType::Empty),
    {
        matches!(self.kind(), SlotType::Empty)
    }

    /// Returns `true` if the slot holds a child node.
    pub fn is_node(&self) -> (r: bool)
        ensures
            r == (self.holds() == SlotType::Node),
    {
        matches!(self.kind(), SlotType::Node)
    }

    /// Returns a shared reference to the child node.
    pub fn as_node_ref(&self) -> (r: &Node<T, SHIFT, SIZE>)
        requires
            *self is Node,
        ensures
            *r == self->Node_0@,
    {
        match self {
            Slot::Node(node) => node.get(),
            _ => vstd::pervasive::unreached(),
        }
    }

    /// Returns a mutable reference to the child node.
    pub fn as_node_mut(&mut self) -> (r: &mut Node<T, SHIFT, SIZE>)
        requires
            *old(self) is Node,
        ensures
            *r == old(self)->Node_0@,
            *final(self) is Node,
            final(self)->Node_0@ == *final(r),
    {
        match self {
            Slot::Node(node) => node.get_mut(),
            _ => vstd::pervasive::unreached(),
        }
    }

    /// Consumes the slot and returns the child node.
    pub fn into_node(self) -> (r: TryBox<Node<T, SHIFT, SIZE>>)
        requires
            self is Node,
        ensures
            r == self->Node_0,
    {
        match self {
            Slot::Node(node) => node,
            _ => vstd::pervasive::unreached(),
        }
    }

    /// Creates a slot that holds a child node.
    pub fn mk_node(node: TryBox<Node<T, SHIFT, SIZE>>) -> (r: Self)
        ensures
            r == Slot::<T, SHIFT, SIZE>::Node(node),
    {
        Slot::Node(node)
    }

    /// Puts `new` into the slot and returns what it held.
    pub fn replace(&mut self, new: Self) -> (r: Self)
        ensures
            r == *old(self),
            *final(self) == new,
    {
        let mut other = new;
        core::mem::swap(self, &mut other);
        other
    }

    /// Empties the slot and returns what it held.
    pub fn take(&mut self) -> (r: Self)
        ensures
            r == *old(self),
            *final(self) == Slot::<T, SHIFT, SIZE>::Word(0),
    {
        self.replace(Slot::default())
    }
}

/// A single node in the tree: `SIZE` slots, each of which is empty, holds an entry, or holds a
/// child node at the next lower level.
///
/// # Invariants
///
/// - A leaf (level 0) holds entries only.
/// - An interior node (level > 0) holds child nodes only, and under each child there is an entry.
pub struct Node<T: ForeignOwnable, const SHIFT: usize, const SIZE: usize> {
    /// The slots.
    pub slots: [Slot<T, SHIFT, SIZE>; SIZE],
}

impl<T: ForeignOwnable, const SHIFT: usize, const SIZE: usize> Node<T, SHIFT, SIZE> {
    /// The slot that `index` selects in this node at `level`.
    pub open spec fn slot_for(self, index: usize, level: nat) -> Slot<T, SHIFT, SIZE> {
        self.slots@[offset(SHIFT as nat, index, level) as int]
    }

    /// The entry that is found by following the slot offsets of `index` down from `level`.
    pub open spec fn get(self, index: usize, level: nat) -> Option<Entry<T>>
        decreases level,
    {
        if level == 0 {
            self.slot_for(index, level).entry()
        } else {
            match self.slot_for(index, level) {
                Slot::Node(child) => child@.get(index, (level - 1) as nat),
                _ => None,
            }
        }
    }

    /// As slot `s` of a node at `level`, this child leads to an entry.
    pub open spec fn leads_to_entry(self, s: int, level: nat) -> bool {
        exists|j: usize|
            offset(SHIFT as nat, j, level) == s && (#[trigger] self.get(
                j,
                (level - 1) as nat,
            )) is Some
    }

    /// The invariant of a node at `level` and of every node below it.
    pub open spec fn wf(self, level: nat) -> bool
        decreases level,
    {
        forall|s: int|
            0 <= s < SIZE ==> if level == 0 {
                (#[trigger] self.slots@[s]).leaf_ok()
            } else {
                match self.slots@[s] {
                    Slot::Word(w) => w == 0,
                    Slot::Pointer(_) => false,
                    Slot::Node(child) => {
                        &&& child@.wf((level - 1) as nat)
                        &&& child@.leads_to_entry(s, level)
                    },
                }
            }
    }

    /// Every slot is empty.
    pub open spec fn vacant(self) -> bool {
        forall|s: int| 0 <= s < SIZE ==> (#[trigger] self.slots@[s]).holds() == SlotType::Empty
    }

    /// The number of nodes below `level` that the path to `index` lacks.
    pub open spec fn missing(self, index: usize, level: nat) -> nat
        decreases level,
    {
        if level == 0 {
            0
        } else {
            match self.slot_for(index, level) {
                Slot::Node(child) => child@.missing(index, (level - 1) as nat),
                _ => level,
            }
        }
    }

    /// What is found depends on no slot offset above `level`.
    pub proof fn lemma_get_local(self, i: usize, j: usize, level: nat)
        requires
            same_below(SHIFT as nat, i, j, level + 1),
        ensures
            self.get(i, level) == self.get(j, level),
        decreases level,
    {
        lemma_same_below_step(SHIFT as nat, i, j, level);
        if level > 0 {
            match self.slot_for(i, level) {
                Slot::Node(child) => child@.lemma_get_local(i, j, (level - 1) as nat),
                _ => {},
            }
        }
    }

    /// A vacant node is well-formed at any level, and nothing is found in it.
    pub proof fn lemma_vacant(self, level: nat)
        requires
            valid_shape(SHIFT, SIZE),
            self.vacant(),
        ensures
            self.wf(level),
            forall|j: usize| #[trigger] self.get(j, level) is None,
            forall|j: usize| #[trigger] self.missing(j, level) == level,
    {
        assert forall|j: usize| #[trigger] self.get(j, level) is None by {
            lemma_offset_in_node(SHIFT as nat, j, level);
        }
        assert forall|j: usize| #[trigger] self.missing(j, level) == level by {
            lemma_offset_in_node(SHIFT as nat, j, level);
        }
    }

    /// A well-formed node that is not vacant holds an entry that some index leads to.
    pub proof fn lemma_occupied(self, level: nat) -> (j: usize)
        requires
            valid_shape(SHIFT, SIZE),
            self.wf(level),
            !self.vacant(),
        ensures
            self.get(j, level) is Some,
    {
        let s = choose|s: int|
            0 <= s < SIZE && (#[trigger] self.slots@[s]).holds() != SlotType::Empty;
        if level == 0 {
            let j = s as usize;
            lemma_offset_of_small(SHIFT as nat, j);
            j
        } else {
            let child = self.slots@[s]->Node_0@;
            choose|j: usize|
                offset(SHIFT as nat, j, level) == s && (#[trigger] child.get(
                    j,
                    (level - 1) as nat,
                )) is Some
        }
    }

    /// Where the child in the slot of `index` changes so that `found` is found at `index`, the
    /// same holds of the whole node.
    proof fn lemma_child_changed(
        self,
        before: Self,
        index: usize,
        level: nat,
        found: Option<Entry<T>>,
    )
        requires
            valid_shape(SHIFT, SIZE),
            level > 0,
            before.wf(level),
            self.slots@ == before.slots@.update(
                offset(SHIFT as nat, index, level) as int,
                self.slot_for(index, level),
            ),
            match self.slot_for(index, level) {
                Slot::Word(w) => w == 0,
                Slot::Pointer(_) => false,
                Slot::Node(child) => {
                    &&& child@.wf((level - 1) as nat)
                    &&& child@.leads_to_entry(offset(SHIFT as nat, index, level) as int, level)
                },
            },
            forall|j: usize| #[trigger]
                self.slot_for(index, level).get_below(j, level) == if same_below(
                    SHIFT as nat,
                    j,
                    index,
                    level,
                ) {
                    found
                } else {
                    before.slot_for(index, level).get_below(j, level)
                },
        ensures
            self.wf(level),
            forall|j: usize| #[trigger]
                self.get(j, level) == if same_below(SHIFT as nat, j, index, level + 1) {
                    found
                } else {
                    before.get(j, level)
                },
    {
        lemma_offset_in_node(SHIFT as nat, index, level);
        assert forall|j: usize| #[trigger] self.get(j, level) == if same_below(
            SHIFT as nat,
            j,
            index,
            level + 1,
        ) {
            found
        } else {
            before.get(j, level)
        } by {
            lemma_offset_in_node(SHIFT as nat, j, level);
            lemma_same_below_step(SHIFT as nat, j, index, level);
            assert(self.get(j, level) == self.slot_for(j, level).get_below(j, level));
            assert(before.get(j, level) == before.slot_for(j, level).get_below(j, level));
        }
    }

    /// A child that still holds an entry still leads to one from the slot of `index`.
    proof fn lemma_still_leads(self, index: usize, level: nat)
        requires
            valid_shape(SHIFT, SIZE),
            level > 0,
            level * SHIFT < usize::BITS,
            self.wf((level - 1) as nat),
            !self.vacant(),
        ensures
            self.leads_to_entry(offset(SHIFT as nat, index, level) as int, level),
    {
        let low = self.lemma_occupied((level - 1) as nat);
        let j = splice(SHIFT as nat, index, low, level);
        lemma_splice(SHIFT as nat, index, low, level);
        self.lemma_get_local(j, low, (level - 1) as nat);
        assert(self.get(j, (level - 1) as nat) is Some);
    }

    /// Where the leaf slot of `index` changes, only what is found at `index` changes.
    proof fn lemma_leaf_changed(self, before: Self, index: usize)
        requires
            valid_shape(SHIFT, SIZE),
            before.wf(0),
            self.slots@ == before.slots@.update(
                offset(SHIFT as nat, index, 0) as int,
                self.slot_for(index, 0),
            ),
            self.slot_for(index, 0).leaf_ok(),
        ensures
            self.wf(0),
            forall|j: usize| #[trigger]
                self.get(j, 0) == if same_below(SHIFT as nat, j, index, 1) {
                    self.slot_for(index, 0).entry()
                } else {
                    before.get(j, 0)
                },
    {
        lemma_offset_in_node(SHIFT as nat, index, 0);
        assert forall|j: usize| #[trigger] self.get(j, 0) == if same_below(
            SHIFT as nat,
            j,
            index,
            1,
        ) {
            self.slot_for(index, 0).entry()
        } else {
            before.get(j, 0)
        } by {
            lemma_offset_in_node(SHIFT as nat, j, 0);
            lemma_same_below_zero(SHIFT as nat, j, index);
            lemma_same_below_step(SHIFT as nat, j, index, 0);
        }
    }

    /// The nodes that the path to `index` lacks in a tree are those that it lacks by the keys of the
    /// tree.
    pub proof fn lemma_missing_is_lacking(self, keys: Set<usize>, index: usize, level: nat)
        requires
            valid_shape(SHIFT, SIZE),
            level * SHIFT < usize::BITS,
            self.wf(level),
            forall|j: usize|
                same_from(SHIFT as nat, j, index, level + 1) ==> #[trigger] keys.contains(j) == (
                self.get(j, level) is Some),
        ensures
            self.missing(index, level) == nodes_lacking(keys, SHIFT as nat, index, level),
        decreases level,
    {
        let shift = SHIFT as nat;
        if level > 0 {
            let below = (level - 1) as nat;
            lemma_offset_in_node(shift, index, level);
            lemma_level_inside(shift, below, level);
            assert forall|j: usize|
                same_from(shift, j, index, level) implies #[trigger] keys.contains(j) == (
            self.slot_for(index, level).get_below(j, level) is Some) by {
                lemma_same_from_step(shift, j, index, level);
            }
            match self.slot_for(index, level) {
                Slot::Node(boxed) => {
                    let child = boxed@;
                    // Some entry lies under the child: its index shows in the keys.
                    let low = choose|j: usize|
                        offset(shift, j, level) == offset(shift, index, level) && (
                        #[trigger] child.get(j, below)) is Some;
                    let k = splice(shift, index, low, level);
                    lemma_splice(shift, index, low, level);
                    child.lemma_get_local(k, low, below);
                    assert(keys.contains(k));
                    child.lemma_missing_is_lacking(keys, index, below);
                },
                _ => {
                    lemma_all_lacking(keys, shift, index, level);
                },
            }
        }
    }

    /// Creates a vacant node.
    pub fn new() -> (r: Self)
        ensures
            r.vacant(),
    {
        Node { slots: empty_slots() }
    }

    /// Creates a vacant node on the heap if memory for it can be allocated.
    ///
    /// Whether it can is up to the allocator; [`TryBox::from_reserved`] says what is returned
    /// either way.
    pub fn try_new() -> (r: Result<TryBox<Self>, Error>)
        ensures
            match r {
                Ok(node) => node@.vacant(),
                Err(e) => e == Error::ENOMEM && Self::refused(),
            },
    {
        TryBox::new(Self::new())
    }

    /// The allocator has refused room for a node.
    pub open spec fn refused() -> bool {
        TryBox::<Self>::no_room()
    }

    /// Extracts the slot offset for `index` at the given tree `level`.
    pub fn slot_index(index: usize, level: usize) -> (r: usize)
        requires
            valid_shape(SHIFT, SIZE),
            level * SHIFT < usize::BITS,
        ensures
            r == offset(SHIFT as nat, index, level as nat),
            r < SIZE,
    {
        proof {
            lemma_offset_in_node(SHIFT as nat, index, level as nat);
            vstd::arithmetic::power2::lemma_pow2_pos(SHIFT as nat);
            vstd::bits::lemma_usize_shr_is_div(index, (level * SHIFT) as usize);
            vstd::bits::lemma_usize_low_bits_mask_is_mod(
                index >> ((level * SHIFT) as usize),
                SHIFT as nat,
            );
        }
        (index >> (level * SHIFT)) & (SIZE - 1)
    }

    /// Returns `true` if every slot in this node is empty.
    pub fn is_empty(&self) -> (r: bool)
        ensures
            r == self.vacant(),
    {
        let mut i: usize = 0;
        while i < SIZE
            invariant
                i <= SIZE,
                forall|s: int| 0 <= s < i ==> (#[trigger] self.slots@[s]).holds() == SlotType::Empty,
            decreases SIZE - i,
        {
            if !self.slots[i].is_empty() {
                return false;
            }
            i += 1;
        }
        true
    }

    /// Erases the entry at `index`.
    ///
    /// Returns the previous entry, or [`None`] if the slot was empty. Frees empty intermediate
    /// nodes on the way back up.
    pub fn erase(&mut self, index: usize, level: usize) -> (r: Option<Entry<T>>)
        requires
            valid_shape(SHIFT, SIZE),
            level * SHIFT < usize::BITS,
            old(self).wf(level as nat),
        ensures
            final(self).wf(level as nat),
            r == old(self).get(index, level as nat),
            forall|j: usize| #[trigger]
                final(self).get(j, level as nat) == if same_below(
                    SHIFT as nat,
                    j,
                    index,
                    level as nat + 1,
                ) {
                    None
                } else {
                    old(self).get(j, level as nat)
                },
        decreases level,
    {
        let slot_index: usize = Self::slot_index(index, level);
        let slot = &mut self.slots[slot_index];
        if level == 0 {
            let old_slot = slot.take();
            proof {
                self.lemma_leaf_changed(*old(self), index);
            }
            return old_slot.decode();
        }
        proof {
            lemma_level_inside(SHIFT as nat, (level - 1) as nat, level as nat);
        }
        let mut old_value: Option<Entry<T>> = None;
        if slot.is_node() {
            let child = slot.as_node_mut();
            old_value = child.erase(index, level - 1);
            let ghost child_after = *child;
            if child.is_empty() {
                proof {
                    child_after.lemma_vacant((level - 1) as nat);
                }
                slot.take();
            } else {
                proof {
                    child_after.lemma_still_leads(index, level as nat);
                }
            }
            assert forall|j: usize| #[trigger] slot.get_below(j, level as nat) == if same_below(
                SHIFT as nat,
                j,
                index,
                level as nat,
            ) {
                None
            } else {
                old(self).slot_for(index, level as nat).get_below(j, level as nat)
            } by {
                assert(slot.get_below(j, level as nat) == child_after.get(j, (level - 1) as nat));
            }
        }
        proof {
            self.lemma_child_changed(*old(self), index, level as nat, None);
        }
        old_value
    }

    /// Stores `entry` at `index`, taking intermediate nodes from `supply` as needed.
    ///
    /// Returns the previous entry, or [`None`] if the slot was empty. Where a node cannot be had,
    /// those that were linked in on the way down are unlinked and handed back.
    pub fn store(
        &mut self,
        index: usize,
        entry: Entry<T>,
        level: usize,
        supply: &mut Supply<T, SHIFT, SIZE>,
    ) -> (r: Result<Option<Entry<T>>, Error>)
        requires
            valid_shape(SHIFT, SIZE),
            level * SHIFT < usize::BITS,
            old(self).wf(level as nat),
            old(supply).ready(),
        ensures
            final(self).wf(level as nat),
            final(supply).ready(),
            (*final(supply) is Heap) == (*old(supply) is Heap),
            match r {
                Ok(previous) => {
                    &&& previous == old(self).get(index, level as nat)
                    &&& forall|j: usize| #[trigger]
                        final(self).get(j, level as nat) == if same_below(
                            SHIFT as nat,
                            j,
                            index,
                            level as nat + 1,
                        ) {
                            Some(entry)
                        } else {
                            old(self).get(j, level as nat)
                        }
                    &&& *old(supply) is Spare ==> final(supply).count() == old(supply).count()
                        - old(self).missing(index, level as nat)
                },
                Err(e) => {
                    &&& e == Error::ENOMEM
                    &&& forall|j: usize| #[trigger]
                        final(self).get(j, level as nat) == old(self).get(j, level as nat)
                    &&& final(supply).count() == old(supply).count()
                    &&& old(self).missing(index, level as nat) > old(supply).count()
                    &&& *old(supply) is Heap ==> Self::refused()
                },
            },
        decreases level,
    {
        let slot_index: usize = Self::slot_index(index, level);
        let slot = &mut self.slots[slot_index];
        if level == 0 {
            let new_slot = Slot::encode(entry);
            let old_slot = slot.replace(new_slot);
            proof {
                self.lemma_leaf_changed(*old(self), index);
            }
            return Ok(old_slot.decode());
        }
        proof {
            lemma_level_inside(SHIFT as nat, (level - 1) as nat, level as nat);
        }
        if slot.is_empty() {
            match supply.next() {
                Ok(child_node) => {
                    proof {
                        child_node@.lemma_vacant((level - 1) as nat);
                    }
                    *slot = Slot::mk_node(child_node);
                },
                Err(e) => {
                    return Err(e);
                },
            }
        }
        let child = slot.as_node_mut();
        let ghost child_before = *child;
        let result = child.store(index, entry, level - 1, supply);
        let ghost child_after = *child;
        if result.is_err() && child.is_empty() {
            supply.give_back(slot.take().into_node());
        }
        proof {
            let found = match result {
                Ok(_) => Some(entry),
                Err(_) => child_before.get(index, (level - 1) as nat),
            };
            if child_after.vacant() {
                child_after.lemma_vacant((level - 1) as nat);
            } else {
                child_after.lemma_still_leads(index, level as nat);
            }
            assert(child_after.get(index, (level - 1) as nat) == found);
            assert forall|j: usize| #[trigger] slot.get_below(j, level as nat) == if same_below(
                SHIFT as nat,
                j,
                index,
                level as nat,
            ) {
                found
            } else {
                old(self).slot_for(index, level as nat).get_below(j, level as nat)
            } by {
                assert(slot.get_below(j, level as nat) == child_after.get(j, (level - 1) as nat));
                if same_below(SHIFT as nat, j, index, level as nat) {
                    child_after.lemma_get_local(j, index, (level - 1) as nat);
                }
            }
            self.lemma_child_changed(*old(self), index, level as nat, found);
            if result is Err {
                // A child that was there before still holds its entries; one that was linked in
                // on the way holds none.
                if old(self).slot_for(index, level as nat) is Node {
                    let j = choose|j: usize|
                        offset(SHIFT as nat, j, level as nat) == slot_index
                            && (#[trigger] child_before.get(j, (level - 1) as nat)) is Some;
                    assert(child_after.get(j, (level - 1) as nat) is Some);
                } else if !child_after.vacant() {
                    let j = child_after.lemma_occupied((level - 1) as nat);
                    assert(child_before.get(j, (level - 1) as nat) is Some);
                }
                assert forall|j: usize| #[trigger] self.get(j, level as nat) == old(self).get(
                    j,
                    level as nat,
                ) by {
                    if same_below(SHIFT as nat, j, index, level as nat + 1) {
                        old(self).lemma_get_local(j, index, level as nat);
                    }
                }
            }
        }
        result
    }

    /// Loads the entry at `index`.
    ///
    /// Returns a borrowed view of the entry, or [`None`] if the slot is empty.
    pub fn load(&self, index: usize, level: usize) -> (r: Option<BorrowEntry<'_, T>>)
        requires
            valid_shape(SHIFT, SIZE),
            level * SHIFT < usize::BITS,
            self.wf(level as nat),
        ensures
            r == borrowed_entry(&self.get(index, level as nat)),
        decreases level,
    {
        let slot_index: usize = Self::slot_index(index, level);
        let slot = &self.slots[slot_index];
        if level == 0 {
            return slot.borrow();
        }
        proof {
            lemma_level_inside(SHIFT as nat, (level - 1) as nat, level as nat);
        }
        if slot.is_node() {
            slot.as_node_ref().load(index, level - 1)
        } else {
            None
        }
    }

    /// Counts the nodes below `level` that the path to `index` lacks.
    pub fn count_missing(&self, index: usize, level: usize) -> (r: usize)
        requires
            valid_shape(SHIFT, SIZE),
            level * SHIFT < usize::BITS,
            self.wf(level as nat),
        ensures
            r == self.missing(index, level as nat),
        decreases level,
    {
        if level == 0 {
            return 0;
        }
        let slot_index: usize = Self::slot_index(index, level);
        let slot = &self.slots[slot_index];
        proof {
            lemma_level_inside(SHIFT as nat, (level - 1) as nat, level as nat);
        }
        if slot.is_node() {
            slot.as_node_ref().count_missing(index, level - 1)
        } else {
            level
        }
    }
}

/// Every slot is an empty one.
pub open spec fn all_empty<T: ForeignOwnable, const SHIFT: usize, const SIZE: usize>(
    slots: Seq<Slot<T, SHIFT, SIZE>>,
) -> bool {
    forall|s: int|
        0 <= s < slots.len() ==> (#[trigger] slots[s]) == Slot::<T, SHIFT, SIZE>::Word(0)
}

/// Creates the slots of a vacant node.
///
/// Calls [`core::array::from_fn`], which produces each element of an array by a call of the closure
/// that it is given. The closure makes an empty slot, so the contract says that every slot is empty.
#[verifier::external_body]
fn empty_slots<T: ForeignOwnable, const SHIFT: usize, const SIZE: usize>() -> (r: [Slot<
    T,
    SHIFT,
    SIZE,
>; SIZE])
    ensures
        all_empty(r@),
{
    core::array::from_fn(|_s| Slot::default())
}

/// Every node of the list is vacant.
pub open spec fn all_vacant<T: ForeignOwnable, const SHIFT: usize, const SIZE: usize>(
    nodes: Seq<TryBox<Node<T, SHIFT, SIZE>>>,
) -> bool {
    forall|i: int| 0 <= i < nodes.len() ==> (#[trigger] nodes[i])@.vacant()
}

/// Where a store gets new nodes from.
pub enum Supply<T: ForeignOwnable, const SHIFT: usize, const SIZE: usize> {
    /// Each node is allocated when it is needed.
    Heap,
    /// The nodes were allocated before.
    Spare(Vec<TryBox<Node<T, SHIFT, SIZE>>>),
}

impl<T: ForeignOwnable, const SHIFT: usize, const SIZE: usize> Supply<T, SHIFT, SIZE> {
    /// Every node that was allocated before is vacant.
    pub open spec fn ready(self) -> bool {
        match self {
            Supply::Heap => true,
            Supply::Spare(nodes) => all_vacant(nodes@),
        }
    }

    /// The number of nodes that were allocated before.
    pub open spec fn count(self) -> nat {
        match self {
            Supply::Heap => 0,
            Supply::Spare(nodes) => nodes@.len(),
        }
    }

    /// Returns a vacant node.
    pub fn next(&mut self) -> (r: Result<TryBox<Node<T, SHIFT, SIZE>>, Error>)
        requires
            old(self).ready(),
        ensures
            final(self).ready(),
            (*final(self) is Heap) == (*old(self) is Heap),
            match r {
                Ok(node) => {
                    &&& node@.vacant()
                    &&& *old(self) is Spare ==> final(self).count() == old(self).count() - 1
                },
                Err(e) => {
                    &&& e == Error::ENOMEM
                    &&& old(self).count() == 0
                    &&& final(self).count() == 0
                    &&& *old(self) is Heap ==> Node::<T, SHIFT, SIZE>::refused()
                },
            },
    {
        match self {
            Supply::Heap => Node::try_new(),
            Supply::Spare(nodes) => match nodes.pop() {
                Some(node) => Ok(node),
                None => Err(Error::ENOMEM),
            },
        }
    }

    /// Takes a vacant node back: keeps it, or frees it where nodes come from the heap.
    pub fn give_back(&mut self, node: TryBox<Node<T, SHIFT, SIZE>>)
        requires
            old(self).ready(),
            node@.vacant(),
        ensures
            final(self).ready(),
            (*final(self) is Heap) == (*old(self) is Heap),
            *old(self) is Spare ==> final(self).count() == old(self).count() + 1,
    {
        match self {
            Supply::Heap => {},
            Supply::Spare(nodes) => nodes.push(node),
        }
    }
}

} // verus!
