//! Outside collections used by the dynamic allocator: a hierarchical bit set of free block
//! indices and a slot list of chunks. Their contracts are trusted: see each item.

use crate::memory::allocator::dynamic::Chunk;
use vstd::prelude::*;

verus! {

/// Hierarchical bit set of `u32` indices.
#[verifier::external_type_specification]
#[verifier::external_body]
pub struct ExBitSet(hibitset::BitSet);

/// Slot list: values pushed get an index that stays valid until popped.
#[verifier::external_type_specification]
#[verifier::external_body]
#[verifier::reject_recursive_types(T)]
pub struct ExVecList<T>(veclist::VecList<T>);

/// Slot list of chunks.
pub type ChunkList = veclist::VecList<Chunk>;

/// Indices held by a bit set.
pub uninterp spec fn bitset_contents(s: hibitset::BitSet) -> Set<u32>;

/// The bit set's upper layers summarise its bottom layer exactly (a bit is set in a layer
/// exactly when its word in the layer below is not zero) and it holds no index at or above
/// `bitset_max_index()`.
pub uninterp spec fn bitset_summary_ok(s: hibitset::BitSet) -> bool;

/// Occupied slots of a chunk list and their values.
pub uninterp spec fn chunk_list_contents(l: ChunkList) -> Map<usize, Chunk>;

/// Number of slots of a chunk list, occupied or not: one more than the highest index
/// ever returned by `push`.
pub uninterp spec fn chunk_list_slots(l: ChunkList) -> nat;

/// Largest index a bit set can hold: `usize::BITS` to the fourth power.
pub open spec fn bitset_max_index() -> int {
    if usize::BITS == 64 {
        0x100_0000
    } else {
        0x10_0000
    }
}

/// Index of bit `b` of word `i` of the bottom layer of a bit set.
pub open spec fn bit_index(i: int, b: int) -> u32 {
    (i * usize::BITS + b) as u32
}

/// `hibitset::BitSet::new`: an empty set.
#[verifier::external_body]
pub fn bitset_new() -> (r: hibitset::BitSet)
    ensures
        bitset_contents(r) == Set::<u32>::empty(),
        bitset_summary_ok(r),
{
    hibitset::BitSet::new()
}

/// `hibitset::BitSet::add`: inserts `id`; returns whether it was already there. The set
/// panics on indices above `usize::BITS` to the fourth power. Below that bound it sets the
/// summary bits of a bottom word that was zero, so summaries stay exact.
#[verifier::external_body]
pub fn bitset_add(s: &mut hibitset::BitSet, id: u32) -> (r: bool)
    requires
        id < bitset_max_index(),
    ensures
        r == bitset_contents(*old(s)).contains(id),
        bitset_contents(*final(s)) == bitset_contents(*old(s)).insert(id),
        bitset_summary_ok(*old(s)) ==> bitset_summary_ok(*final(s)),
{
    s.add(id)
}

/// `hibitset::BitSet::remove`: removes `id`; returns whether it was there. It clears a
/// summary bit exactly when the word below becomes zero, so summaries stay exact.
#[verifier::external_body]
pub fn bitset_remove(s: &mut hibitset::BitSet, id: u32) -> (r: bool)
    requires
        id < bitset_max_index(),
    ensures
        r == bitset_contents(*old(s)).contains(id),
        bitset_contents(*final(s)) == bitset_contents(*old(s)).remove(id),
        bitset_summary_ok(*old(s)) ==> bitset_summary_ok(*final(s)),
{
    s.remove(id)
}

/// First item of `hibitset::BitSetLike::iter`: the smallest index of the set, if any.
/// Stated only of sets whose summary layers are exact: the iterator descends from the top
/// layer, and finds nothing below a summary bit that is clear.
#[verifier::external_body]
pub fn bitset_first(s: &hibitset::BitSet) -> (r: Option<u32>)
    requires
        bitset_summary_ok(*s),
    ensures
        r is None <==> bitset_contents(*s) == Set::<u32>::empty(),
        r matches Some(x) ==> bitset_contents(*s).contains(x) && forall|y: u32|
            bitset_contents(*s).contains(y) ==> x <= y,
{
    hibitset::BitSetLike::iter(s).next()
}

/// `hibitset::BitSetLike::layer0`: word `i` of the bottom layer, whose bit `b` is set
/// exactly when index `i * usize::BITS + b` is in the set. Stated here: the word has all
/// bits set exactly when all those indices are in the set; nothing else is said of it.
#[verifier::external_body]
pub fn bitset_layer0(s: &hibitset::BitSet, i: usize) -> (r: usize)
    requires
        (i + 1) * usize::BITS <= u32::MAX + 1,
    ensures
        (r == !0usize) == forall|b: int|
            0 <= b < usize::BITS ==> #[trigger] bitset_contents(*s).contains(bit_index(i as int, b)),
{
    hibitset::BitSetLike::layer0(s, i)
}

/// `veclist::VecList::new`: an empty list.
#[verifier::external_body]
pub fn chunk_list_new() -> (r: ChunkList)
    ensures
        chunk_list_contents(r).dom() == Set::<usize>::empty(),
        chunk_list_slots(r) == 0,
{
    veclist::VecList::new()
}

/// `veclist::VecList::push`: stores `value` in a vacant slot, the one vacated last, or
/// in a new slot after all others when none is vacant; returns the slot's index.
#[verifier::external_body]
pub fn chunk_list_push(l: &mut ChunkList, value: Chunk) -> (r: usize)
    ensures
        !chunk_list_contents(*old(l)).contains_key(r),
        chunk_list_contents(*final(l)) == chunk_list_contents(*old(l)).insert(r, value),
        chunk_list_contents(*old(l)).len() < chunk_list_slots(*old(l)) ==> r < chunk_list_slots(*old(l))
            && chunk_list_slots(*final(l)) == chunk_list_slots(*old(l)),
        chunk_list_contents(*old(l)).len() >= chunk_list_slots(*old(l)) ==> r == chunk_list_slots(*old(l))
            && chunk_list_slots(*final(l)) == chunk_list_slots(*old(l)) + 1,
{
    l.push(value)
}

/// `veclist::VecList::pop`: takes the value out of slot `index`, if occupied.
/// The list panics when `index` is exactly the number of slots.
#[verifier::external_body]
pub fn chunk_list_pop(l: &mut ChunkList, index: usize) -> (r: Option<Chunk>)
    requires
        index != chunk_list_slots(*old(l)),
    ensures
        chunk_list_slots(*final(l)) == chunk_list_slots(*old(l)),
        chunk_list_contents(*old(l)).contains_key(index) ==> r == Some(chunk_list_contents(*old(l))[index])
            && chunk_list_contents(*final(l)) == chunk_list_contents(*old(l)).remove(index),
        !chunk_list_contents(*old(l)).contains_key(index) ==> r is None && chunk_list_contents(*final(l))
            == chunk_list_contents(*old(l)),
{
    l.pop(index)
}

/// `veclist::VecList::index`: the value in occupied slot `index`.
#[verifier::external_body]
pub fn chunk_list_get(l: &ChunkList, index: usize) -> (r: &Chunk)
    requires
        chunk_list_contents(*l).contains_key(index),
    ensures
        *r == chunk_list_contents(*l)[index],
{
    &l[index]
}

} // verus!
