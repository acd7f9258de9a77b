//! Nodes that are allocated ahead of their use.

use std::collections::TryReserveError;
use vstd::prelude::*;

use crate::error::Error;
use crate::foreign::ForeignOwnable;
use crate::node::{all_vacant, Node};
use crate::try_box::TryBox;

verus! {

/// Nodes that were allocated ahead of their use.
pub struct SpareNodes<T: ForeignOwnable, const SHIFT: usize, const SIZE: usize> {
    nodes: Vec<TryBox<Node<T, SHIFT, SIZE>>>,
}

impl<T: ForeignOwnable, const SHIFT: usize, const SIZE: usize> View for SpareNodes<T, SHIFT, SIZE> {
    type V = nat;

    /// The number of nodes.
    closed spec fn view(&self) -> nat {
        self.nodes@.len()
    }
}

impl<T: ForeignOwnable, const SHIFT: usize, const SIZE: usize> SpareNodes<T, SHIFT, SIZE> {
    /// Every node is ready to be linked in.
    #[verifier::type_invariant]
    closed spec fn ready(self) -> bool {
        all_vacant(self.nodes@)
    }

    /// Creates an empty store of nodes.
    pub fn new() -> (r: Self)
        ensures
            r@ == 0,
    {
        SpareNodes { nodes: Vec::new() }
    }

    /// Returns the number of nodes.
    pub fn len(&self) -> (r: usize)
        ensures
            r == self@,
    {
        self.nodes.len()
    }

    /// Takes all nodes out.
    pub(crate) fn take(&mut self) -> (nodes: Vec<TryBox<Node<T, SHIFT, SIZE>>>)
        ensures
            nodes@.len() == old(self)@,
            all_vacant(nodes@),
            final(self)@ == 0,
    {
        proof {
            use_type_invariant(&*self);
        }
        let mut nodes: Vec<TryBox<Node<T, SHIFT, SIZE>>> = Vec::new();
        core::mem::swap(&mut nodes, &mut self.nodes);
        nodes
    }

    /// Puts nodes in, in place of those that it holds.
    pub(crate) fn put(&mut self, nodes: Vec<TryBox<Node<T, SHIFT, SIZE>>>)
        requires
            all_vacant(nodes@),
        ensures
            final(self)@ == nodes@.len(),
    {
        self.nodes = nodes;
    }

    /// The allocator has refused room for a node.
    pub open spec fn refused() -> bool {
        Node::<T, SHIFT, SIZE>::refused()
    }

    /// Allocates nodes until there are at least `count`.
    ///
    /// # Errors
    ///
    /// Returns [`Error::ENOMEM`] if a node cannot be allocated. The nodes that could be stay. The
    /// list that keeps the nodes grows as any [`Vec`] does.
    pub fn reserve(&mut self, count: usize) -> (r: Result<(), Error>)
        ensures
            match r {
                Ok(_) => final(self)@ == if old(self)@ >= count {
                    old(self)@
                } else {
                    count as nat
                },
                Err(e) => {
                    &&& e == Error::ENOMEM
                    &&& old(self)@ <= final(self)@ < count
                    &&& Self::refused()
                    &&& exists|cell: &mut Vec<Node<T, SHIFT, SIZE>>, why: TryReserveError|
                        cell@.len() == 0 && #[trigger] call_ensures(
                            Vec::<Node<T, SHIFT, SIZE>>::try_reserve,
                            (cell, 1usize),
                            Err::<(), TryReserveError>(why),
                        )
                },
            },
    {
        let mut nodes: Vec<TryBox<Node<T, SHIFT, SIZE>>> = self.take();
        let mut r: Result<(), Error> = Ok(());
        while nodes.len() < count && r.is_ok()
            invariant
                all_vacant(nodes@),
                old(self)@ <= nodes@.len(),
                nodes@.len() <= count || nodes@.len() == old(self)@,
                r matches Err(e) ==> {
                    &&& e == Error::ENOMEM
                    &&& nodes@.len() < count
                    &&& Self::refused()
                },
            decreases count - nodes@.len(), (if r is Ok { 1int } else { 0int }),
        {
            match Node::try_new() {
                Ok(node) => nodes.push(node),
                Err(e) => r = Err(e),
            }
        }
        self.put(nodes);
        r
    }
}

} // verus!
