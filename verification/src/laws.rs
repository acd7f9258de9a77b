//! What holds of the array as a whole.
//!
//! The operations of [`XArray`](crate::XArray) are specified over the map of its entries: a store
//! inserts into it, an erase removes from it, a load looks it up, and the number of nodes that a
//! store allocates follows from its keys. The laws here are about sequences of such operations,
//! about the words that slots hold, and about the way an index is cut into slot offsets.

use std::collections::TryReserveError;
use vstd::arithmetic::div_mod::{lemma_mod_breakdown, lemma_small_mod};
use vstd::arithmetic::power2::{lemma2_to64, lemma_pow2_pos, pow2};
use vstd::bits::{
    lemma_usize_low_bits_mask_is_mod, lemma_usize_pow2_no_overflow, lemma_usize_shl_is_mul,
    lemma_usize_shr_is_div,
};
use vstd::prelude::*;
use vstd::std_specs::cmp::PartialEqSpec;

use crate::entry::{borrowed_entry, entry_at, BorrowEntry, Entry};
use crate::foreign::ForeignOwnable;
use crate::index::{
    lemma_all_lacking, lemma_level_count, lemma_level_inside, lemma_offset_in_node,
    lemma_same_below_all, lemma_same_below_step, lemma_same_below_zero, lemma_same_from_step,
    lemma_span_of_all, lemma_span_step, lemma_span_zero, level_count, nodes_lacking, offset,
    path_has_node, same_below, same_from, span, valid_shape,
};
use crate::node::Node;
use crate::spare::SpareNodes;
use crate::value::{Value, MAX_VALUE};
use crate::word::{int_word, kind_of_word, SlotType, NODE_THRESHOLD};
use crate::xarray::{XArray, MIN_ALIGN};

verus! {

/// A load gives back what the last store at its index put there, and a store at one index is not
/// seen at any other.
pub proof fn law_load_after_store<T: ForeignOwnable>(
    entries: Map<usize, Entry<T>>,
    index: usize,
    entry: Entry<T>,
    other: usize,
)
    ensures
        entry_at(entries.insert(index, entry), index) == Some(entry),
        other != index ==> entry_at(entries.insert(index, entry), other) == entry_at(
            entries,
            other,
        ),
{
}

/// Nothing is loaded from an erased index, and an erase at one index is not seen at any other.
pub proof fn law_load_after_erase<T: ForeignOwnable>(
    entries: Map<usize, Entry<T>>,
    index: usize,
    other: usize,
)
    ensures
        entry_at(entries.remove(index), index) is None,
        other != index ==> entry_at(entries.remove(index), other) == entry_at(entries, other),
{
}

/// An erase undoes a store at an index that was empty.
pub proof fn law_erase_undoes_store<T: ForeignOwnable>(
    entries: Map<usize, Entry<T>>,
    index: usize,
    entry: Entry<T>,
)
    requires
        entry_at(entries, index) is None,
    ensures
        entries.insert(index, entry).remove(index) == entries,
{
    assert(entries.insert(index, entry).remove(index) =~= entries);
}

/// Storing back what an erase returned undoes the erase.
pub proof fn law_store_undoes_erase<T: ForeignOwnable>(
    entries: Map<usize, Entry<T>>,
    index: usize,
    entry: Entry<T>,
)
    requires
        entry_at(entries, index) == Some(entry),
    ensures
        entries.remove(index).insert(index, entry) == entries,
{
    assert(entries.remove(index).insert(index, entry) =~= entries);
}

/// The last of two stores at one index counts.
pub proof fn law_last_store_counts<T: ForeignOwnable>(
    entries: Map<usize, Entry<T>>,
    index: usize,
    first: Entry<T>,
    second: Entry<T>,
)
    ensures
        entry_at(entries.insert(index, first), index) == Some(first),
        entries.insert(index, first).insert(index, second) == entries.insert(index, second),
{
    assert(entries.insert(index, first).insert(index, second) =~= entries.insert(index, second));
}

/// Operations at different indices can be done in either order.
pub proof fn law_operations_commute<T: ForeignOwnable>(
    entries: Map<usize, Entry<T>>,
    i: usize,
    j: usize,
    a: Entry<T>,
    b: Entry<T>,
)
    requires
        i != j,
    ensures
        entries.insert(i, a).insert(j, b) == entries.insert(j, b).insert(i, a),
        entries.insert(i, a).remove(j) == entries.remove(j).insert(i, a),
        entries.remove(i).remove(j) == entries.remove(j).remove(i),
{
    assert(entries.insert(i, a).insert(j, b) =~= entries.insert(j, b).insert(i, a));
    assert(entries.insert(i, a).remove(j) =~= entries.remove(j).insert(i, a));
    assert(entries.remove(i).remove(j) =~= entries.remove(j).remove(i));
}

/// Erasing an empty index returns nothing and changes nothing.
pub proof fn law_erase_of_nothing<T: ForeignOwnable>(entries: Map<usize, Entry<T>>, index: usize)
    requires
        entry_at(entries, index) is None,
    ensures
        entries.remove(index) == entries,
{
    assert(entries.remove(index) =~= entries);
}

/// An array with an entry in it is not empty.
pub proof fn law_stored_is_not_empty<T: ForeignOwnable>(
    entries: Map<usize, Entry<T>>,
    index: usize,
    entry: Entry<T>,
)
    ensures
        entries.insert(index, entry) != Map::<usize, Entry<T>>::empty(),
{
    assert(entries.insert(index, entry).contains_key(index));
}

/// Erasing the only entry leaves the array empty.
pub proof fn law_erase_of_last_empties<T: ForeignOwnable>(
    entries: Map<usize, Entry<T>>,
    index: usize,
)
    requires
        forall|j: usize| j != index ==> entry_at(entries, j) is None,
    ensures
        entries.remove(index) == Map::<usize, Entry<T>>::empty(),
{
    assert forall|j: usize| !entries.remove(index).contains_key(j) by {
        assert(j != index ==> entry_at(entries, j) is None);
    }
    assert(entries.remove(index) =~= Map::<usize, Entry<T>>::empty());
}

/// An integer that is in range comes back from the word that encodes it; the word is an integer
/// word, so that no integer, zero included, is taken for an empty slot, a pointer or a node.
pub proof fn law_integer_round_trip(v: usize)
    requires
        v <= MAX_VALUE,
    ensures
        0 < int_word(v) <= usize::MAX,
        kind_of_word(int_word(v) as usize) == SlotType::Int,
        Value::of(int_word(v) as usize / 2) == Value::of(v),
{
}

/// Every integer word encodes an integer that is in range, and no other word encodes it.
pub proof fn law_integer_words(word: usize)
    requires
        kind_of_word(word) == SlotType::Int,
    ensures
        word / 2 <= MAX_VALUE,
        int_word(word / 2) == word,
        forall|v: usize| #[trigger] int_word(v) == word ==> v == word / 2,
{
}

/// Pointers that are aligned to four bytes are told apart from integers and from nodes: as it is,
/// such an address is a pointer word; tagged, it is a node word if it is above the threshold and a
/// reserved word otherwise. Tagging loses nothing.
pub proof fn law_aligned_addresses(address: usize)
    requires
        address != 0,
        address % 4 == 0,
    ensures
        kind_of_word(address) == SlotType::Pointer,
        address | 2 == address + 2,
        (address | 2) & !3 == address,
        kind_of_word(address | 2) == (if address + 2 > NODE_THRESHOLD {
            SlotType::Node
        } else {
            SlotType::Internal
        }),
{
    assert(address | 2 == address + 2 && (address | 2) & !3 == address) by (bit_vector)
        requires
            address % 4 == 0,
    ;
}

/// The levels of the tree cover every bit of an index, and every level covers some bit of it.
pub proof fn law_levels_cover_index(shift: nat)
    requires
        0 < shift < usize::BITS,
    ensures
        (level_count(shift) - 1) * shift < usize::BITS <= level_count(shift) * shift,
{
    lemma_level_count(shift);
}

/// The index that the slot offsets of `index` below `level` spell.
pub open spec fn spelled(shift: nat, index: usize, level: nat) -> nat
    decreases level,
{
    if level == 0 {
        0
    } else {
        let below = (level - 1) as nat;
        spelled(shift, index, below) + offset(shift, index, below) * span(shift, below)
    }
}

proof fn lemma_spelled(shift: nat, index: usize, level: nat)
    ensures
        spelled(shift, index, level) == index as nat % span(shift, level),
    decreases level,
{
    if level == 0 {
        lemma_span_zero(shift);
    } else {
        let below = (level - 1) as nat;
        lemma_spelled(shift, index, below);
        lemma_span_step(shift, below);
        lemma_mod_breakdown(index as int, span(shift, below) as int, pow2(shift) as int);
        let o = offset(shift, index, below);
        let b = span(shift, below);
        assert(o * b == b * o) by (nonlinear_arith);
    }
}

/// The slot offsets at all levels spell the index.
pub proof fn law_offsets_spell_index(shift: nat, index: usize)
    requires
        0 < shift < usize::BITS,
    ensures
        spelled(shift, index, level_count(shift)) == index,
{
    lemma_spelled(shift, index, level_count(shift));
    lemma_span_of_all(shift);
    lemma_small_mod(index as nat, span(shift, level_count(shift)));
}

/// Different indices take different paths: they differ in the slot offset at some level.
pub proof fn law_paths_differ(shift: nat, i: usize, j: usize)
    requires
        0 < shift < usize::BITS,
        i != j,
    ensures
        exists|level: nat|
            level < level_count(shift) && #[trigger] offset(shift, i, level) != offset(
                shift,
                j,
                level,
            ),
{
    if forall|level: nat|
        level < level_count(shift) ==> #[trigger] offset(shift, i, level) == offset(
            shift,
            j,
            level,
        ) {
        lemma_same_offsets(shift, i, j, level_count(shift));
        lemma_same_below_all(shift, i, j);
    }
}

proof fn lemma_same_offsets(shift: nat, i: usize, j: usize, level: nat)
    requires
        forall|l: nat| l < level ==> #[trigger] offset(shift, i, l) == offset(shift, j, l),
    ensures
        same_below(shift, i, j, level),
    decreases level,
{
    if level == 0 {
        lemma_same_below_zero(shift, i, j);
    } else {
        let below = (level - 1) as nat;
        lemma_same_offsets(shift, i, j, below);
        lemma_same_below_step(shift, i, j, below);
    }
}

/// A store never allocates more nodes than there are levels below the root.
pub proof fn law_nodes_bounded(keys: Set<usize>, shift: nat, index: usize, level: nat)
    ensures
        nodes_lacking(keys, shift, index, level) <= level,
    decreases level,
{
    if level > 0 {
        law_nodes_bounded(keys, shift, index, (level - 1) as nat);
    }
}

/// The first store into an empty array allocates one node for every level below the root.
pub proof fn law_first_store_allocates_path(shift: nat, index: usize, level: nat)
    ensures
        nodes_lacking(Set::<usize>::empty(), shift, index, level) == level,
{
    lemma_all_lacking(Set::empty(), shift, index, level);
}

/// A store allocates nothing where some entry lies in the same leaf; in particular, overwriting an
/// entry never allocates.
pub proof fn law_same_leaf_allocates_nothing(
    keys: Set<usize>,
    shift: nat,
    index: usize,
    key: usize,
    level: nat,
)
    requires
        keys.contains(key),
        key == index || same_from(shift, key, index, 1),
    ensures
        nodes_lacking(keys, shift, index, level) == 0,
    decreases level,
{
    if level > 0 {
        let below = (level - 1) as nat;
        law_same_leaf_allocates_nothing(keys, shift, index, key, below);
        lemma_same_from_upwards(shift, key, index, level);
        assert(path_has_node(keys, shift, index, below));
    }
}

proof fn lemma_same_from_upwards(shift: nat, i: usize, j: usize, level: nat)
    requires
        level > 0,
        i == j || same_from(shift, i, j, 1),
    ensures
        same_from(shift, i, j, level),
    decreases level,
{
    if level > 1 && i != j {
        lemma_same_from_upwards(shift, i, j, (level - 1) as nat);
        lemma_same_from_step(shift, i, j, (level - 1) as nat);
    }
}

/// The more entries an array holds, the fewer nodes a store allocates.
pub proof fn law_entries_save_nodes(
    fewer: Set<usize>,
    more: Set<usize>,
    shift: nat,
    index: usize,
    level: nat,
)
    requires
        fewer.subset_of(more),
    ensures
        nodes_lacking(more, shift, index, level) <= nodes_lacking(fewer, shift, index, level),
    decreases level,
{
    if level > 0 {
        let below = (level - 1) as nat;
        law_entries_save_nodes(fewer, more, shift, index, below);
        if path_has_node(fewer, shift, index, below) {
            let k = choose|k: usize| #[trigger]
                fewer.contains(k) && same_from(shift, k, index, below + 1);
            assert(more.contains(k));
        }
    }
}

/// The shapes of [`XArray4`](crate::XArray4) and [`XArray6`](crate::XArray6) are valid.
pub proof fn law_named_shapes()
    ensures
        valid_shape(4, 16),
        valid_shape(6, 64),
{
    lemma2_to64();
}

/// What is found at an index is there, and what is there is found: an entry is looked up if and
/// only if the map has the index, and it is the map's entry.
pub proof fn law_lookup<T: ForeignOwnable>(entries: Map<usize, Entry<T>>, index: usize)
    ensures
        entry_at(entries, index) is Some <==> entries.contains_key(index),
        entries.contains_key(index) ==> entry_at(entries, index)->0 == entries[index],
{
}

/// A load finds something if and only if the index has an entry.
pub proof fn law_load_finds_entries<T: ForeignOwnable>(
    entries: Map<usize, Entry<T>>,
    index: usize,
)
    ensures
        borrowed_entry(&entry_at(entries, index)) is Some <==> entries.contains_key(index),
{
}

/// A load of an integer gives that very integer, and never a pointer.
pub proof fn law_load_of_integer<T: ForeignOwnable>(
    entries: Map<usize, Entry<T>>,
    index: usize,
    v: Value,
)
    requires
        entries.contains_key(index),
        entries[index] == Entry::<T>::Int(v),
    ensures
        borrowed_entry(&entry_at(entries, index)) matches Some(BorrowEntry::Int(w)) && w == v && w@
            == v@,
{
}

/// A load of a pointer gives the borrowed form of that very pointer, and never an integer.
pub proof fn law_load_of_pointer<T: ForeignOwnable>(
    entries: Map<usize, Entry<T>>,
    index: usize,
    p: T,
)
    requires
        entries.contains_key(index),
        entries[index] == Entry::<T>::Pointer(p),
    ensures
        borrowed_entry(&entry_at(entries, index)) matches Some(BorrowEntry::Pointer(b)) && b
            == p.borrowed(),
{
}

/// Loads tell integers apart: indices from which the same integer is loaded hold the same integer.
pub proof fn law_loads_tell_integers_apart<T: ForeignOwnable>(
    entries: Map<usize, Entry<T>>,
    i: usize,
    j: usize,
    v: Value,
    w: Value,
)
    requires
        entries.contains_key(i),
        entries.contains_key(j),
        entries[i] == Entry::<T>::Int(v),
        entries[j] == Entry::<T>::Int(w),
        borrowed_entry(&entry_at(entries, i)) == borrowed_entry(&entry_at(entries, j)),
    ensures
        v@ == w@,
{
    law_load_of_integer(entries, i, v);
    law_load_of_integer(entries, j, w);
}

/// Whatever a call of `load` returns on a well-formed array, it is present if and only if the index
/// has an entry, and it is that entry: the same integer, or the same pointer borrowed.
pub proof fn law_load_result<'a, T: ForeignOwnable, const SHIFT: usize, const SIZE: usize>(
    xa: &'a XArray<T, SHIFT, SIZE>,
    index: usize,
    r: Option<BorrowEntry<'a, T>>,
)
    requires
        xa.wf(),
        call_ensures(XArray::<T, SHIFT, SIZE>::load, (xa, index), r),
    ensures
        r is Some <==> xa@.contains_key(index),
        xa@.contains_key(index) ==> match xa@[index] {
            Entry::Int(v) => r == Some(BorrowEntry::<T>::Int(v)),
            Entry::Pointer(p) => r == Some(BorrowEntry::<T>::Pointer(p.borrowed())),
        },
{
}

/// A box lends out what is in it, and is aligned as that is.
pub proof fn law_box_pointers<V: 'static>(b: Box<V>)
    ensures
        *(<Box<V> as ForeignOwnable>::borrowed(&b)) == *b,
        <Box<V> as ForeignOwnable>::foreign_align() == vstd::layout::align_of::<V>(),
{
}

/// A store is refused only where the allocator has refused room for one node.
pub proof fn law_refusal_is_the_allocators<
    T: ForeignOwnable,
    const SHIFT: usize,
    const SIZE: usize,
>()
    ensures
        SpareNodes::<T, SHIFT, SIZE>::refused() ==> exists|
            cell: &mut Vec<Node<T, SHIFT, SIZE>>,
            why: TryReserveError,
        |
            cell@.len() == 0 && #[trigger] call_ensures(
                Vec::<Node<T, SHIFT, SIZE>>::try_reserve,
                (cell, 1usize),
                Err::<(), TryReserveError>(why),
            ),
{
}

/// A shape is valid if and only if the shift is positive and below the width of an index, and the
/// number of slots is one shifted left by it.
pub proof fn law_valid_shapes(shift: usize, size: usize)
    ensures
        valid_shape(shift, size) <==> 0 < shift < usize::BITS && size == pow2(shift as nat),
        0 < shift < usize::BITS ==> (valid_shape(shift, size) <==> size == 1usize << shift),
{
    if 0 < shift < usize::BITS {
        lemma_usize_pow2_no_overflow(shift as nat);
        lemma_usize_shl_is_mul(1, shift);
    }
}

/// Whatever a call of `validate` returns, it is whether the shape is valid and the pointers are
/// aligned to at least four bytes.
pub proof fn law_validate_result<T: ForeignOwnable, const SHIFT: usize, const SIZE: usize>(r: bool)
    requires
        call_ensures(XArray::<T, SHIFT, SIZE>::validate, (), r),
    ensures
        r <==> 0 < SHIFT < usize::BITS && SIZE == pow2(SHIFT as nat) && T::foreign_align() >= 4,
{
}

/// A value equals a number if and only if it holds that number, so it equals one number only.
pub proof fn law_value_equality(v: Value, n: usize, m: usize)
    ensures
        <Value as PartialEqSpec<usize>>::obeys_eq_spec(),
        v.eq_spec(&n) <==> v@ == n,
        v.eq_spec(&n) && v.eq_spec(&m) ==> n == m,
{
}

/// Two values are the same if and only if they hold the same number.
pub proof fn law_values_by_number(v: Value, w: Value, n: usize)
    ensures
        v == w <==> v@ == w@,
        Value::of(n)@ == n,
        Value::of(v@) == v,
{
    Value::lemma_determined_by_integer(n, Value::of(n));
    Value::lemma_determined_by_integer(v@, v);
    Value::lemma_determined_by_integer(v@, w);
}

/// The limits: an integer leaves out one bit of a word, pointers are aligned to four bytes, and
/// reserved words go up to 4096.
pub proof fn law_limits()
    ensures
        MAX_VALUE == usize::MAX / 2,
        2 * MAX_VALUE + 1 == usize::MAX,
        MIN_ALIGN == 4,
        NODE_THRESHOLD == 4096,
{
}

/// The two low bits of a word, zero apart, say what it is.
pub proof fn law_low_bits_tell_words_apart(word: usize)
    ensures
        kind_of_word(word) == SlotType::Empty <==> word == 0,
        kind_of_word(word) == SlotType::Int <==> word & 1 == 1,
        kind_of_word(word) == SlotType::Pointer <==> word != 0 && word & 3 == 0,
        kind_of_word(word) == SlotType::Internal <==> word & 3 == 2 && word <= 4096,
        kind_of_word(word) == SlotType::Node <==> word & 3 == 2 && word > 4096,
{
    assert(word & 1 == word % 2) by (bit_vector);
    assert(word & 3 == word % 4) by (bit_vector);
}

/// An integer is encoded by a shift to the left by one with the low bit set, and decoded by a shift
/// to the right by one.
pub proof fn law_integer_words_are_shifts(v: usize)
    requires
        v <= usize::MAX / 2,
    ensures
        int_word(v) == (v << 1) | 1,
        int_word(v) as usize >> 1 == v,
{
    lemma2_to64();
    lemma_usize_shl_is_mul(v, 1);
    let shifted: usize = v << 1;
    assert((shifted | 1) == shifted + 1) by (bit_vector)
        requires
            shifted % 2 == 0,
    ;
    let word: usize = int_word(v) as usize;
    assert(word >> 1 == word / 2) by (bit_vector);
}

/// The slot offset of an index at a level is `(index >> (level * shift)) & (size - 1)`.
pub proof fn law_offset_is_chunk(shift: usize, size: usize, index: usize, level: usize)
    requires
        valid_shape(shift, size),
        level * shift < usize::BITS,
    ensures
        offset(shift as nat, index, level as nat) == (index >> ((level * shift) as usize)) & ((size
            - 1) as usize),
        offset(shift as nat, index, level as nat) < size,
{
    lemma_pow2_pos(shift as nat);
    lemma_usize_shr_is_div(index, (level * shift) as usize);
    lemma_usize_low_bits_mask_is_mod(index >> ((level * shift) as usize), shift as nat);
    lemma_offset_in_node(shift as nat, index, level as nat);
}

/// The root is at the highest level whose chunk starts inside an index.
pub proof fn law_root_is_at_the_top<T: ForeignOwnable, const SHIFT: usize, const SIZE: usize>()
    requires
        0 < SHIFT < usize::BITS,
    ensures
        XArray::<T, SHIFT, SIZE>::top() * SHIFT < usize::BITS <= (XArray::<T, SHIFT, SIZE>::top()
            + 1) * SHIFT,
{
    lemma_level_count(SHIFT as nat);
}

/// A store at `index` allocates at most `d` nodes if and only if some key shares with `index` every
/// bit above the lowest `d + 1` chunks, or `d` is the number of levels below the root.
pub proof fn law_nodes_needed_exactly<T: ForeignOwnable, const SHIFT: usize, const SIZE: usize>(
    keys: Set<usize>,
    index: usize,
    d: nat,
)
    requires
        0 < SHIFT < usize::BITS,
        d <= XArray::<T, SHIFT, SIZE>::top(),
    ensures
        XArray::<T, SHIFT, SIZE>::lacking(keys, index) <= d <==> (d == XArray::<
            T,
            SHIFT,
            SIZE,
        >::top() || exists|k: usize| #[trigger]
            keys.contains(k) && k >> (((d + 1) * SHIFT) as usize) == index >> (((d + 1)
                * SHIFT) as usize)),
{
    let shift = SHIFT as nat;
    let top = XArray::<T, SHIFT, SIZE>::top();
    law_nodes_bounded(keys, shift, index, top);
    if d < top {
        lemma_level_count(shift);
        lemma_level_inside(shift, d + 1, top);
        lemma_lacking_at_most(keys, shift, index, top, d);
        let e = ((d + 1) * SHIFT) as usize;
        assert forall|k: usize| #[trigger] keys.contains(k) implies same_from(
            shift,
            k,
            index,
            d + 1,
        ) == (k >> e == index >> e) by {
            lemma_usize_shr_is_div(k, e);
            lemma_usize_shr_is_div(index, e);
        }
    }
}

proof fn lemma_lacking_at_most(keys: Set<usize>, shift: nat, index: usize, level: nat, d: nat)
    requires
        d < level,
    ensures
        nodes_lacking(keys, shift, index, level) <= d <==> path_has_node(keys, shift, index, d),
    decreases level,
{
    let below = (level - 1) as nat;
    if path_has_node(keys, shift, index, below) {
        law_nodes_bounded(keys, shift, index, below);
        if d < below {
            lemma_lacking_at_most(keys, shift, index, below, d);
        }
    } else {
        assert forall|k: usize| #[trigger] keys.contains(k) implies !same_from(
            shift,
            k,
            index,
            d + 1,
        ) by {
            if same_from(shift, k, index, d + 1) {
                lemma_same_from_above(shift, k, index, d + 1, level);
            }
        }
        lemma_all_lacking(keys, shift, index, level);
    }
}

proof fn lemma_same_from_above(shift: nat, i: usize, j: usize, lower: nat, upper: nat)
    requires
        lower <= upper,
        same_from(shift, i, j, lower),
    ensures
        same_from(shift, i, j, upper),
    decreases upper - lower,
{
    if lower < upper {
        lemma_same_from_step(shift, i, j, lower);
        lemma_same_from_above(shift, i, j, lower + 1, upper);
    }
}

} // verus!
