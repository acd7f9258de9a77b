//! Tagged words: how a slot encodes an integer, and how a word is told apart by its low bits.
//!
//! The two low bits of a word say what it is:
//!
//! - `0` is an empty slot.
//! - An odd word `(v << 1) | 1` is the integer `v`.
//! - A word with low bits `0b00` other than `0` is a pointer.
//! - A word with low bits `0b10` is internal to the array. Up to [`NODE_THRESHOLD`] such words are
//!   reserved: `2..=250` for sibling entries, `1026` for a retry entry and `1030` for a zero entry.
//!   Above it they are tagged node pointers.

use vstd::prelude::*;

use crate::value::Value;

verus! {

/// Internal words above this threshold are node pointers; those up to it are reserved.
pub const NODE_THRESHOLD: usize = 4096;

/// What a slot holds.
#[derive(Clone, Copy, Debug, PartialEq, Eq, Structural)]
pub enum SlotType {
    /// Nothing.
    Empty,
    /// A pointer entry.
    Pointer,
    /// A reserved internal word.
    Internal,
    /// A child node: an internal word above [`NODE_THRESHOLD`].
    Node,
    /// An integer entry.
    Int,
}

/// What the bits of `word` say it is.
pub open spec fn kind_of_word(word: usize) -> SlotType {
    if word == 0 {
        SlotType::Empty
    } else if word % 2 == 1 {
        SlotType::Int
    } else if word % 4 == 0 {
        SlotType::Pointer
    } else if word > NODE_THRESHOLD {
        SlotType::Node
    } else {
        SlotType::Internal
    }
}

/// The word that encodes the integer `v`.
pub open spec fn int_word(v: usize) -> int {
    2 * v + 1
}

/// Tells what the bits of `word` say it is.
pub fn kind(word: usize) -> (r: SlotType)
    ensures
        r == kind_of_word(word),
        r == SlotType::Empty <==> word == 0,
        r == SlotType::Int <==> word & 1 == 1,
        r == SlotType::Pointer <==> word != 0 && word & 3 == 0,
        r == SlotType::Internal <==> word & 3 == 2 && word <= 4096,
        r == SlotType::Node <==> word & 3 == 2 && word > 4096,
{
    assert(word & 1 == word % 2) by (bit_vector);
    assert(word & 3 == word % 4) by (bit_vector);
    if word == 0 {
        return SlotType::Empty;
    }
    match word & 3 {
        2 if word > NODE_THRESHOLD => SlotType::Node,
        2 => SlotType::Internal,
        1 | 3 => SlotType::Int,
        _ => SlotType::Pointer,
    }
}

/// Encodes an integer as a tagged word.
pub fn encode_int(v: Value) -> (word: usize)
    ensures
        word == int_word(v@),
        word == (v@ << 1) | 1,
        word == 2 * v@ + 1,
        kind_of_word(word) == SlotType::Int,
{
    let bits: usize = v.get();
    proof {
        vstd::arithmetic::power2::lemma2_to64();
        vstd::bits::lemma_usize_shl_is_mul(bits, 1);
        let shifted: usize = bits << 1;
        assert((shifted | 1) == shifted + 1) by (bit_vector)
            requires
                shifted % 2 == 0,
        ;
    }
    (bits << 1) | 1
}

/// Undoes [`encode_int`].
pub fn decode_int(word: usize) -> (v: Value)
    requires
        kind_of_word(word) == SlotType::Int,
    ensures
        word == int_word(v@),
        v@ == word >> 1,
        v@ == word / 2,
        v == Value::of(word / 2),
{
    assert(word >> 1 == word / 2) by (bit_vector);
    Value::from_expr(word >> 1)
}

} // verus!
