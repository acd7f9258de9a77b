//! How an index is cut into one slot offset per tree level.
//!
//! With a shift of `S`, the slot offset at a level is the `S`-bit chunk of the index that starts at
//! bit `level * S`; level 0 takes the lowest bits.

use vstd::arithmetic::div_mod::{
    lemma_div_denominator, lemma_fundamental_div_mod, lemma_fundamental_div_mod_converse,
    lemma_mod_bound, lemma_mod_breakdown, lemma_small_mod,
};
use vstd::arithmetic::power2::{
    lemma2_to64, lemma2_to64_rest, lemma_pow2_adds, lemma_pow2_pos, lemma_pow2_strictly_increases,
    pow2,
};
use vstd::prelude::*;

verus! {

/// A node shape that a tree can be built from: `size` slots, selected by `shift` bits of an index.
pub open spec fn valid_shape(shift: usize, size: usize) -> bool {
    &&& 0 < shift < usize::BITS
    &&& size == pow2(shift as nat)
}

/// The number of tree levels that cover every index: `usize::BITS / shift`, rounded up.
pub open spec fn level_count(shift: nat) -> nat
    recommends
        shift > 0,
{
    ((usize::BITS + shift - 1) / shift as int) as nat
}

/// The number of indices that lie under one slot of a node at `level`.
pub open spec fn span(shift: nat, level: nat) -> nat {
    pow2(level * shift)
}

/// The slot offset of `index` in a node at `level`.
pub open spec fn offset(shift: nat, index: usize, level: nat) -> nat {
    (index as nat / span(shift, level)) % pow2(shift)
}

/// The two indices have the same slot offset at every level below `level`.
pub open spec fn same_below(shift: nat, i: usize, j: usize, level: nat) -> bool {
    i as nat % span(shift, level) == j as nat % span(shift, level)
}

/// The two indices have the same slot offset at `level` and at every level above it.
pub open spec fn same_from(shift: nat, i: usize, j: usize, level: nat) -> bool {
    i as nat / span(shift, level) == j as nat / span(shift, level)
}

/// The index with the slot offsets of `high` from `level` on and those of `low` below it.
pub open spec fn splice(shift: nat, high: usize, low: usize, level: nat) -> usize {
    ((high as nat / span(shift, level)) * span(shift, level) + low as nat % span(shift, level)) as usize
}

/// The levels below [`level_count`] are those whose chunk starts inside the index.
pub proof fn lemma_level_count(shift: nat)
    requires
        0 < shift < usize::BITS,
    ensures
        2 <= level_count(shift) <= usize::BITS,
        (level_count(shift) - 1) * shift < usize::BITS <= level_count(shift) * shift,
{
    let bits = usize::BITS as int;
    let s = shift as int;
    let n = level_count(shift) as int;
    lemma_fundamental_div_mod(bits + s - 1, s);
    lemma_mod_bound(bits + s - 1, s);
    assert(bits <= n * s && (n - 1) * s < bits && 0 <= n && n <= bits && n >= 2) by (nonlinear_arith)
        requires
            bits + s - 1 == s * n + (bits + s - 1) % s,
            0 <= (bits + s - 1) % s < s,
            0 < s < bits,
    ;
}

/// A chunk that starts below a level that is inside the index starts inside it too.
pub proof fn lemma_level_inside(shift: nat, level: nat, upper: nat)
    requires
        level <= upper,
        upper * shift < usize::BITS,
    ensures
        level * shift < usize::BITS,
{
    assert(level * shift <= upper * shift) by (nonlinear_arith)
        requires
            level <= upper,
    ;
}

/// One slot of a leaf covers one index.
pub proof fn lemma_span_zero(shift: nat)
    ensures
        span(shift, 0) == 1,
{
    lemma2_to64();
    assert(0 * shift == 0) by (nonlinear_arith);
}

/// One slot of a node at the next level covers a whole node of this one.
pub proof fn lemma_span_step(shift: nat, level: nat)
    ensures
        span(shift, level + 1) == span(shift, level) * pow2(shift),
        span(shift, level) > 0,
        pow2(shift) > 0,
{
    lemma_pow2_pos(level * shift);
    lemma_pow2_pos(shift);
    lemma_pow2_adds(level * shift, shift);
    assert((level + 1) * shift == level * shift + shift) by (nonlinear_arith);
}

/// A slot offset is inside the node.
pub proof fn lemma_offset_in_node(shift: nat, index: usize, level: nat)
    ensures
        offset(shift, index, level) < pow2(shift),
{
    lemma_pow2_pos(shift);
    lemma_mod_bound((index as nat / span(shift, level)) as int, pow2(shift) as int);
}

/// Agreeing below the next level is agreeing below this one and at it.
pub proof fn lemma_same_below_step(shift: nat, i: usize, j: usize, level: nat)
    ensures
        same_below(shift, i, j, level + 1) <==> same_below(shift, i, j, level) && offset(
            shift,
            i,
            level,
        ) == offset(shift, j, level),
{
    lemma_span_step(shift, level);
    let b = span(shift, level) as int;
    let s = pow2(shift) as int;
    lemma_mod_breakdown(i as int, b, s);
    lemma_mod_breakdown(j as int, b, s);
    lemma_mod_bound(i as int, b);
    lemma_mod_bound(j as int, b);
    let ti = (i as int / b) % s;
    let tj = (j as int / b) % s;
    let ri = i as int % b;
    let rj = j as int % b;
    if b * ti + ri == b * tj + rj {
        lemma_fundamental_div_mod_converse(b * ti + ri, b, ti, ri);
        lemma_fundamental_div_mod_converse(b * tj + rj, b, tj, rj);
    }
}

/// Below level 0 there is nothing to differ in.
pub proof fn lemma_same_below_zero(shift: nat, i: usize, j: usize)
    ensures
        same_below(shift, i, j, 0),
{
    lemma_span_zero(shift);
}

/// Every index lies under one slot above the root.
pub proof fn lemma_span_of_all(shift: nat)
    requires
        0 < shift < usize::BITS,
    ensures
        span(shift, level_count(shift)) > usize::MAX,
{
    lemma_level_count(shift);
    lemma2_to64();
    lemma2_to64_rest();
    let n = level_count(shift) * shift;
    if n > usize::BITS {
        lemma_pow2_strictly_increases(usize::BITS as nat, n);
    }
}

/// Two indices with the same slot offset at every level are the same index.
pub proof fn lemma_same_below_all(shift: nat, i: usize, j: usize)
    requires
        0 < shift < usize::BITS,
    ensures
        same_below(shift, i, j, level_count(shift)) <==> i == j,
{
    lemma_span_of_all(shift);
    lemma_small_mod(i as nat, span(shift, level_count(shift)));
    lemma_small_mod(j as nat, span(shift, level_count(shift)));
}

/// Agreeing from a level on is agreeing at it and from the next one on; in particular it is
/// agreeing from the next one on.
pub proof fn lemma_same_from_step(shift: nat, i: usize, j: usize, level: nat)
    requires
        same_from(shift, i, j, level),
    ensures
        same_from(shift, i, j, level + 1),
        offset(shift, i, level) == offset(shift, j, level),
{
    lemma_span_step(shift, level);
    lemma_div_denominator(i as int, span(shift, level) as int, pow2(shift) as int);
    lemma_div_denominator(j as int, span(shift, level) as int, pow2(shift) as int);
}

/// A spliced index is an index, and has the slot offsets that it was made from.
pub proof fn lemma_splice(shift: nat, high: usize, low: usize, level: nat)
    requires
        level * shift < usize::BITS,
    ensures
        same_from(shift, splice(shift, high, low, level), high, level),
        same_below(shift, splice(shift, high, low, level), low, level),
{
    let e = level * shift;
    let b = span(shift, level) as int;
    lemma_pow2_pos(e);
    let q = high as int / b;
    let r = low as int % b;
    lemma_mod_bound(low as int, b);
    lemma_mod_bound(high as int, b);
    lemma_fundamental_div_mod(high as int, b);
    // The span divides the number of indices, so the last block is a whole one.
    let rest = pow2((usize::BITS - e) as nat) as int;
    assert(b * rest == usize::MAX + 1) by {
        lemma_pow2_adds(e, (usize::BITS - e) as nat);
        lemma2_to64();
        lemma2_to64_rest();
    }
    assert(q * b + r <= usize::MAX) by (nonlinear_arith)
        requires
            b > 0,
            0 <= r < b,
            high as int == b * q + high as int % b,
            0 <= high as int % b,
            high <= usize::MAX,
            b * rest == usize::MAX + 1,
    ;
    assert(q * b + r >= 0) by (nonlinear_arith)
        requires
            q >= 0,
            b > 0,
            r >= 0,
    ;
    lemma_fundamental_div_mod_converse(q * b + r, b, q, r);
}

/// An index below the number of slots of a node is its own slot offset in a leaf.
pub proof fn lemma_offset_of_small(shift: nat, index: usize)
    requires
        index < pow2(shift),
    ensures
        offset(shift, index, 0) == index,
{
    lemma_span_zero(shift);
    lemma_small_mod(index as nat, pow2(shift));
}

/// The path to `index` passes through a node at `level` that an array with these keys has: some
/// key lies under the same node.
pub open spec fn path_has_node(keys: Set<usize>, shift: nat, index: usize, level: nat) -> bool {
    exists|k: usize| #[trigger] keys.contains(k) && same_from(shift, k, index, level + 1)
}

/// The number of nodes below `level` on the path to `index` that an array with these keys lacks.
pub open spec fn nodes_lacking(keys: Set<usize>, shift: nat, index: usize, level: nat) -> nat
    decreases level,
{
    if level == 0 {
        0
    } else {
        let below = (level - 1) as nat;
        nodes_lacking(keys, shift, index, below) + if path_has_node(keys, shift, index, below) {
            0nat
        } else {
            1nat
        }
    }
}

/// Where no key shares the slot offsets of `index` from `level` on, every node below is lacking.
pub proof fn lemma_all_lacking(keys: Set<usize>, shift: nat, index: usize, level: nat)
    requires
        forall|k: usize| #[trigger] keys.contains(k) ==> !same_from(shift, k, index, level),
    ensures
        nodes_lacking(keys, shift, index, level) == level,
    decreases level,
{
    if level > 0 {
        let below = (level - 1) as nat;
        assert forall|k: usize| #[trigger] keys.contains(k) implies !same_from(
            shift,
            k,
            index,
            below,
        ) by {
            if same_from(shift, k, index, below) {
                lemma_same_from_step(shift, k, index, below);
            }
        }
        lemma_all_lacking(keys, shift, index, below);
    }
}

} // verus!
