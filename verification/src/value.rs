//! Bounded integers that an entry can hold.

use vstd::prelude::*;

verus! {

/// The largest integer that a [`Value`] can hold: `usize::MAX >> 1`.
pub const MAX_VALUE: usize = usize::MAX / 2;

/// An integer that fits in `usize::BITS - 1` bits (`0..=usize::MAX >> 1`).
///
/// One bit of the word that stores the integer in a slot is taken by its tag, which is why the top
/// bit is out of range.
#[derive(Clone, Copy, Debug, PartialEq, Eq, Structural)]
pub struct Value {
    bits: usize,
}

impl View for Value {
    type V = usize;

    closed spec fn view(&self) -> usize {
        self.bits
    }
}

impl Value {
    /// Every executable `Value` is in range.
    #[verifier::type_invariant]
    closed spec fn in_range(self) -> bool {
        self.bits <= MAX_VALUE
    }

    /// The value that holds `v`.
    pub closed spec fn of(v: usize) -> Value {
        Value { bits: v }
    }

    /// Creates a value from a constant that is in range.
    pub fn new<const V: usize>() -> (r: Self)
        requires
            V <= MAX_VALUE,
        ensures
            r == Value::of(V),
            r@ == V,
    {
        Value { bits: V }
    }

    /// Creates a value if `v` is in range.
    pub fn try_new(v: usize) -> (r: Option<Self>)
        ensures
            r == (if v <= MAX_VALUE {
                Some(Value::of(v))
            } else {
                None
            }),
            r is Some <==> v <= usize::MAX / 2,
            r matches Some(value) ==> value@ == v,
    {
        if v <= MAX_VALUE {
            Some(Value { bits: v })
        } else {
            None
        }
    }

    /// Creates a value from an expression that is known to be in range.
    pub fn from_expr(v: usize) -> (r: Self)
        requires
            v <= MAX_VALUE,
        ensures
            r == Value::of(v),
            r@ == v,
    {
        Value { bits: v }
    }

    /// Returns the integer.
    pub fn get(self) -> (r: usize)
        ensures
            r == self@,
            r <= MAX_VALUE,
            r <= usize::MAX / 2,
    {
        proof {
            use_type_invariant(self);
        }
        self.bits
    }

    /// A value and the integer that it holds determine each other.
    pub broadcast proof fn lemma_determined_by_integer(v: usize, value: Value)
        ensures
            #![trigger Value::of(v), value.view()]
            (value == Value::of(v)) == (value@ == v),
    {
    }
}

impl PartialEq<usize> for Value {
    fn eq(&self, other: &usize) -> (r: bool)
        ensures
            r == (self@ == *other),
    {
        self.bits == *other
    }
}

impl vstd::std_specs::cmp::PartialEqSpecImpl<usize> for Value {
    open spec fn obeys_eq_spec() -> bool {
        true
    }

    open spec fn eq_spec(&self, other: &usize) -> bool {
        self@ == *other
    }
}

} // verus!
