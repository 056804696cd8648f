//! Dynamic allocator: blocks of fixed sizes carved out of chunks, chunks taken from
//! blocks of larger sizes or from dedicated memory objects.

use crate::memory::allocator::collections::{
    bit_index, bitset_add, bitset_contents, bitset_first, bitset_layer0, bitset_max_index, bitset_new, bitset_remove,
    bitset_summary_ok,
    chunk_list_contents, chunk_list_get, chunk_list_new, chunk_list_pop, chunk_list_push, chunk_list_slots,
    ChunkList,
};
use crate::memory::device::Device;
use crate::memory::error::{MappingError, MemoryError, OutOfMemoryError};
use crate::memory::mapping::{
    fitting_ptr, mapped_fitting_range, mapped_sub_range, mapping_addressable, sub_range_spec, MappedRange,
};
use crate::memory::memory::Memory;
use crate::memory::properties::Properties;
use crate::memory::util::{aligned, aligned_spec, fits_u32, fits_usize, is_pow2, lemma_aligned_spec, lemma_pow2_divides};
use std::ops::Range;
use vstd::prelude::*;

verus! {

/// Config for `DynamicAllocator`.
#[derive(Clone, Copy, Debug)]
pub struct DynamicConfig {
    /// Number of blocks per chunk.
    /// It is advised to keep this equal to bits count in `usize`.
    pub blocks_per_chunk: u32,
    /// All requests are rounded up to multiple of this value.
    pub block_size_granularity: u64,
    /// Maximum block size.
    /// For any request larger than this won't be allocated with this allocator.
    pub max_block_size: u64,
}

/// Memory block allocated from `DynamicAllocator`.
#[derive(Debug)]
pub struct DynamicBlock {
    index: u32,
    memory: Memory,
    ptr: Option<usize>,
    range: Range<u64>,
}

impl DynamicBlock {
    /// Index of the block among the blocks of its size.
    pub closed spec fn index_view(&self) -> u32 {
        self.index
    }

    /// Memory object the block lies in.
    pub closed spec fn memory_view(&self) -> Memory {
        self.memory
    }

    /// Host address of the block, when its memory is mapped.
    pub closed spec fn ptr_view(&self) -> Option<usize> {
        self.ptr
    }

    /// Range of the block in the memory object.
    pub closed spec fn range_view(&self) -> Range<u64> {
        self.range
    }

    /// Size of the block.
    pub open spec fn size_view(&self) -> int {
        self.range_view().end - self.range_view().start
    }

    /// The block's range is valid and, when mapped, addressable by the host.
    pub open spec fn wf(&self) -> bool {
        &&& self.range_view().start <= self.range_view().end
        &&& self.ptr_view() matches Some(p) ==> mapping_addressable(p, self.range_view())
    }

    /// Size of the block.
    pub fn size(&self) -> (r: u64)
        requires
            self.range_view().start <= self.range_view().end,
        ensures
            r == self.size_view(),
    {
        self.range.end - self.range.start
    }

    /// Get memory properties of the block.
    pub fn properties(&self) -> (r: Properties)
        ensures
            r == self.memory_view().properties,
    {
        self.memory.properties()
    }

    /// Get raw memory object.
    pub fn memory(&self) -> (r: u64)
        ensures
            r == self.memory_view().raw,
    {
        self.memory.raw()
    }

    /// Get memory range owned by this block.
    pub fn range(&self) -> (r: Range<u64>)
        ensures
            r == self.range_view(),
    {
        self.range.start..self.range.end
    }

    /// Get mapping for a sub-range of the block, given relative to the block's start.
    pub fn map(&self, range: Range<u64>) -> (r: Result<MappedRange, MappingError>)
        requires
            self.wf(),
            range.start <= range.end,
        ensures
            !self.memory_view().properties.cpu_visible ==> r == Err::<MappedRange, MappingError>(
                MappingError::HostInvisible,
            ),
            self.memory_view().properties.cpu_visible ==> match self.ptr_view() {
                Some(p) => match sub_range_spec(p, self.range_view(), range) {
                    Some((ptr, sub)) => r matches Ok(m) && m.wf() && m.base_view() == ptr
                        && m.mapping_view() == sub && m.requested_view() == sub
                        && m.memory_view() == self.memory_view(),
                    None => r == Err::<MappedRange, MappingError>(MappingError::OutOfBounds),
                },
                None => r == Err::<MappedRange, MappingError>(MappingError::MappingFailed),
            },
    {
        if !self.memory.host_visible() {
            return Err(MappingError::HostInvisible);
        }
        match self.ptr {
            Some(p) => match mapped_sub_range(p, self.range.start..self.range.end, range) {
                Some((ptr, sub)) => Ok(MappedRange::from_raw(self.memory, ptr, sub.start..sub.end, sub)),
                None => Err(MappingError::OutOfBounds),
            },
            None => Err(MappingError::MappingFailed),
        }
    }

    /// Release memory mapping: the block stays mapped with its chunk, so nothing is done.
    pub fn unmap(&mut self)
        ensures
            *final(self) == *old(self),
    {
    }
}

/// Block allocated for chunk.
#[derive(Debug)]
pub enum Chunk {
    /// Allocated from device, with its mapping when host-visible.
    Dedicated(Memory, Option<usize>),
    /// Allocated from chunk of bigger blocks.
    Dynamic(DynamicBlock),
}

impl Chunk {
    /// Range of the chunk in its memory object.
    pub open spec fn range_view(&self) -> Range<u64> {
        match self {
            Chunk::Dedicated(m, _) => Range { start: 0u64, end: m.size },
            Chunk::Dynamic(b) => b.range_view(),
        }
    }

    /// Memory object of the chunk.
    pub open spec fn memory_view(&self) -> Memory {
        match self {
            Chunk::Dedicated(m, _) => *m,
            Chunk::Dynamic(b) => b.memory_view(),
        }
    }

    /// Host address of the start of the chunk, when mapped.
    pub open spec fn ptr_view(&self) -> Option<usize> {
        match self {
            Chunk::Dedicated(_, p) => *p,
            Chunk::Dynamic(b) => b.ptr_view(),
        }
    }

    /// Memory object of the chunk.
    pub fn shared_memory(&self) -> (r: Memory)
        ensures
            r == self.memory_view(),
    {
        match self {
            Chunk::Dedicated(m, _) => *m,
            Chunk::Dynamic(b) => b.memory,
        }
    }

    /// Range of the chunk in its memory object.
    pub fn range(&self) -> (r: Range<u64>)
        ensures
            r == self.range_view(),
    {
        match self {
            Chunk::Dedicated(m, _) => 0..m.size(),
            Chunk::Dynamic(b) => b.range(),
        }
    }

    /// Host address of the start of the chunk, when mapped.
    pub fn ptr(&self) -> (r: Option<usize>)
        ensures
            r == self.ptr_view(),
    {
        match self {
            Chunk::Dedicated(_, p) => *p,
            Chunk::Dynamic(b) => b.ptr,
        }
    }
}

/// List of chunks of one block size.
struct Size {
    /// List of chunks.
    chunks: ChunkList,
    /// Total chunks count.
    total_chunks: u32,
    /// Bits per free blocks.
    blocks: hibitset::BitSet,
}

/// Low-fragmentation allocator.
/// Suitable for any type of small allocations.
/// Have up to `block_size_granularity - 1` memory overhead.
/// Every freed block can be recycled independently.
/// Memory objects are returned to the system when all blocks of a chunk are freed.
pub struct DynamicAllocator {
    /// Memory type that this allocator allocates.
    memory_type: u32,
    /// Memory properties of the memory type.
    memory_properties: Properties,
    /// Number of blocks per chunk.
    blocks_per_chunk: u32,
    /// All requests are rounded up to multiple of this value.
    block_size_granularity: u64,
    /// Atom size of the memory type.
    non_coherent_atom_size: u64,
    /// List of chunk lists.
    /// Each index corresponds to `block_size_granularity * (index + 1)` size.
    sizes: Vec<Size>,
    /// Blocks handed out to users, per size.
    user: Ghost<Seq<Set<u32>>>,
    /// Chunks allocated from the device: size index, chunk index and memory object.
    ledger: Ghost<Seq<(int, usize, Memory)>>,
}

/// `config` can make an allocator for memory with `properties`: the granularity is not zero,
/// the largest block is a multiple of it, and a chunk of largest blocks fits a `u64`, and a
/// `usize` when the memory is mapped.
pub open spec fn dynamic_config_ok(config: DynamicConfig, properties: Properties) -> bool {
    &&& config.block_size_granularity != 0
    &&& config.max_block_size * usize::BITS <= u64::MAX
    &&& properties.cpu_visible ==> config.max_block_size * usize::BITS <= usize::MAX
    &&& config.max_block_size % config.block_size_granularity == 0
    &&& config.max_block_size / config.block_size_granularity <= usize::MAX
}

/// Every memory object that ledger `after` holds and `before` does not was given by
/// `device`, with its size, from memory type `mt`.
pub open spec fn ledger_granted<D: Device>(
    device: &D,
    mt: u32,
    before: Seq<(int, usize, Memory)>,
    after: Seq<(int, usize, Memory)>,
) -> bool {
    forall|q: int|
        0 <= q < after.len() && !before.contains(#[trigger] after[q]) ==> device.grants(mt, after[q].2.size, after[q].2.raw)
}

/// Every memory object that ledger `before` holds and `after` does not was handed back to
/// `device`, unmapped first when host-visible.
pub open spec fn ledger_released<D: Device>(
    device: &D,
    before: Seq<(int, usize, Memory)>,
    after: Seq<(int, usize, Memory)>,
) -> bool {
    forall|q: int|
        0 <= q < before.len() && !after.contains(#[trigger] before[q]) ==> device.frees(before[q].2.raw) && (
        before[q].2.properties.cpu_visible ==> device.unmaps(before[q].2.raw))
}

/// Grants compose over successive ledgers.
proof fn lemma_ledger_granted_trans<D: Device>(
    device: &D,
    mt: u32,
    a: Seq<(int, usize, Memory)>,
    b: Seq<(int, usize, Memory)>,
    c: Seq<(int, usize, Memory)>,
)
    requires
        ledger_granted(device, mt, a, b),
        ledger_granted(device, mt, b, c),
    ensures
        ledger_granted(device, mt, a, c),
{
    assert forall|q: int| 0 <= q < c.len() && !a.contains(#[trigger] c[q]) implies device.grants(
        mt,
        c[q].2.size,
        c[q].2.raw,
    ) by {
        if b.contains(c[q]) {
            let p = choose|p: int| 0 <= p < b.len() && b[p] == c[q];
            assert(!a.contains(b[p]));
        }
    }
}

/// Releases compose over successive ledgers.
proof fn lemma_ledger_released_trans<D: Device>(
    device: &D,
    a: Seq<(int, usize, Memory)>,
    b: Seq<(int, usize, Memory)>,
    c: Seq<(int, usize, Memory)>,
)
    requires
        ledger_released(device, a, b),
        ledger_released(device, b, c),
    ensures
        ledger_released(device, a, c),
{
    assert forall|q: int| 0 <= q < a.len() && !c.contains(#[trigger] a[q]) implies device.frees(a[q].2.raw) && (
    a[q].2.properties.cpu_visible ==> device.unmaps(a[q].2.raw)) by {
        if b.contains(a[q]) {
            let p = choose|p: int| 0 <= p < b.len() && b[p] == a[q];
            assert(!c.contains(b[p]));
        }
    }
}

/// A ledger that does not change releases nothing.
proof fn lemma_ledger_released_same<D: Device>(device: &D, a: Seq<(int, usize, Memory)>)
    ensures
        ledger_released(device, a, a),
{
    assert forall|q: int| 0 <= q < a.len() implies a.contains(#[trigger] a[q]) by {}
}

/// Total size of the memory objects of a ledger.
pub open spec fn ledger_bytes(s: Seq<(int, usize, Memory)>) -> int
    decreases s.len(),
{
    if s.len() == 0 {
        0
    } else {
        ledger_bytes(s.drop_last()) + s.last().2.size
    }
}

} // verus!

verus! {

/// Largest number of blocks of one size: `usize::BITS` to the fourth power.
pub open spec fn max_blocks() -> int {
    bitset_max_index()
}

/// Largest number of chunks of one size.
pub open spec fn max_chunks() -> int {
    max_blocks() / (usize::BITS as int)
}

/// Largest number of blocks of one size: `usize::BITS` to the fourth power.
fn max_blocks_per_size() -> (r: u32)
    ensures
        r == max_blocks(),
{
    let bits = usize::BITS as usize;
    let value = bits * bits * bits * bits;
    let fits = fits_u32(value);
    value as u32
}

/// A multiple `g * k` of the granularity is served by size index `k - 1`.
pub proof fn lemma_size_index_of_multiple(g: int, k: int)
    requires
        g > 0,
        k >= 1,
    ensures
        (g * k - 1) / g == k - 1,
{
    vstd::arithmetic::div_mod::lemma_fundamental_div_mod(g * k - 1, g);
    let q = (g * k - 1) / g;
    let r = (g * k - 1) % g;
    assert(q == k - 1) by (nonlinear_arith)
        requires g * k - 1 == g * q + r, 0 <= r < g, g > 0;
}

/// A request is served by the smallest block size that holds it: the blocks of its size
/// index hold it, and those of the index below do not.
pub proof fn lemma_size_index_smallest(a: &DynamicAllocator, size: int)
    requires
        a.granularity_view() > 0,
        size > 0,
    ensures
        a.size_index_of(size) >= 0,
        size <= a.block_size_of(a.size_index_of(size)),
        a.size_index_of(size) > 0 ==> a.block_size_of(a.size_index_of(size) - 1) < size,
{
    let g = a.granularity_view() as int;
    let q = (size - 1) / g;
    vstd::arithmetic::div_mod::lemma_fundamental_div_mod(size - 1, g);
    assert(q >= 0) by (nonlinear_arith)
        requires size - 1 >= 0, g > 0, q == (size - 1) / g;
    assert(size <= g * (q + 1)) by (nonlinear_arith)
        requires size - 1 == g * q + (size - 1) % g, (size - 1) % g < g;
    assert(g * q < size) by (nonlinear_arith)
        requires size - 1 == g * q + (size - 1) % g, (size - 1) % g >= 0;
}

/// Chunks times blocks per chunk is the largest number of blocks.
pub proof fn lemma_max_chunks()
    ensures
        max_chunks() * usize::BITS == bitset_max_index(),
        max_chunks() <= 0x4_0000,
        bitset_max_index() <= 0x100_0000,
{
    if usize::BITS == 64 {
        assert(max_chunks() == 0x4_0000);
    } else {
        assert(max_chunks() == 0x8000);
    }
}

impl DynamicAllocator {
    /// Memory type the allocator allocates from.
    pub closed spec fn memory_type_view(&self) -> u32 {
        self.memory_type
    }

    /// Properties of the memory type.
    pub closed spec fn memory_properties_view(&self) -> Properties {
        self.memory_properties
    }

    /// Granularity of block sizes.
    pub closed spec fn granularity_view(&self) -> u64 {
        self.block_size_granularity
    }

    /// Number of block sizes.
    pub closed spec fn classes(&self) -> nat {
        self.sizes@.len()
    }

    /// Number of blocks per chunk.
    pub closed spec fn per_chunk(&self) -> u32 {
        self.blocks_per_chunk
    }

    /// Size of the blocks of size index `i`.
    pub open spec fn block_size_of(&self, i: int) -> int {
        self.granularity_view() * (i + 1)
    }

    /// Size of the chunks of size index `i`.
    pub open spec fn chunk_size_of(&self, i: int) -> int {
        self.block_size_of(i) * self.per_chunk()
    }

    /// Largest block size.
    pub open spec fn max_block_size_view(&self) -> int {
        self.granularity_view() * self.classes()
    }

    /// Size index whose blocks serve requests of `size` bytes.
    pub open spec fn size_index_of(&self, size: int) -> int {
        (size - 1) / (self.granularity_view() as int)
    }

    /// Size index that chunks of size index `i` are taken from.
    pub open spec fn chunk_class(&self, i: int) -> int {
        self.per_chunk() * (i + 1) - 1
    }

    /// Chunks of size index `i`.
    pub closed spec fn chunks_of(&self, i: int) -> Map<usize, Chunk> {
        chunk_list_contents(self.sizes@[i].chunks)
    }

    /// Free blocks of size index `i`.
    pub closed spec fn free_of(&self, i: int) -> Set<u32> {
        bitset_contents(self.sizes@[i].blocks)
    }

    /// The bit set of free blocks of size index `i` has exact summary layers.
    pub closed spec fn free_summary_ok(&self, i: int) -> bool {
        bitset_summary_ok(self.sizes@[i].blocks)
    }

    /// Blocks of size index `i` handed out to users.
    pub closed spec fn user_of(&self, i: int) -> Set<u32> {
        self.user@[i]
    }

    /// Chunks allocated from the device.
    pub closed spec fn ledger_view(&self) -> Seq<(int, usize, Memory)> {
        self.ledger@
    }

    /// Device memory held by the allocator.
    pub open spec fn held(&self) -> int {
        ledger_bytes(self.ledger_view())
    }

    /// Chunk that block `b` of size index `i` lies in.
    pub open spec fn chunk_index_of(&self, b: u32) -> usize {
        (b / self.per_chunk()) as usize
    }

    /// Range of block `b` of size index `i` in its chunk's memory.
    pub open spec fn block_range_of(&self, i: int, b: u32) -> Range<u64> {
        let c = self.chunks_of(i)[self.chunk_index_of(b)];
        let start = c.range_view().start + (b % self.per_chunk()) * self.block_size_of(i);
        Range { start: start as u64, end: (start + self.block_size_of(i)) as u64 }
    }

    /// Host address of block `b` of size index `i`, when its chunk is mapped.
    pub open spec fn block_ptr_of(&self, i: int, b: u32) -> Option<usize> {
        let c = self.chunks_of(i)[self.chunk_index_of(b)];
        match c.ptr_view() {
            Some(p) => Some((p + (b % self.per_chunk()) * self.block_size_of(i)) as usize),
            None => None,
        }
    }

    /// `blk` is block `blk.index` of size index `i`: its chunk exists, it is not free,
    /// and its memory, range and address are those of its place in the chunk.
    pub open spec fn taken(&self, i: int, blk: DynamicBlock) -> bool {
        let b = blk.index_view();
        &&& self.chunks_of(i).contains_key(self.chunk_index_of(b))
        &&& !self.free_of(i).contains(b)
        &&& blk.range_view() == self.block_range_of(i, b)
        &&& blk.memory_view() == self.chunks_of(i)[self.chunk_index_of(b)].memory_view()
        &&& blk.ptr_view() == self.block_ptr_of(i, b)
    }

    /// A chunk of size index `i` is valid.
    pub open spec fn chunk_ok(&self, i: int, c: Chunk) -> bool {
        &&& c.range_view().start <= c.range_view().end
        &&& c.range_view().end - c.range_view().start == self.chunk_size_of(i)
        &&& c.range_view().start as int % self.block_size_of(i) == 0
        &&& c.memory_view().properties == self.memory_properties_view()
        &&& c.ptr_view() matches Some(p) ==> mapping_addressable(p, c.range_view())
        &&& match c {
            Chunk::Dedicated(m, _) => self.chunk_size_of(i) > self.max_block_size_view(),
            Chunk::Dynamic(blk) => {
                let j = self.chunk_class(i);
                &&& self.chunk_size_of(i) <= self.max_block_size_view()
                &&& j < self.classes()
                &&& self.taken(j, blk)
                &&& !self.user_of(j).contains(blk.index_view())
            },
        }
    }

    /// Size index `i` is consistent: the chunk count, the slots of the chunk list, the
    /// free and user blocks, which lie in existing chunks and are disjoint, and each chunk.
    pub open spec fn class_ok(&self, i: int) -> bool {
        let cs = self.chunks_of(i);
        &&& self.free_summary_ok(i)
        &&& self.chunk_count(i) == cs.len()
        &&& self.chunk_count(i) <= self.slots_of(i)
        &&& cs.dom().finite()
        &&& forall|k: usize| cs.contains_key(k) ==> k < self.slots_of(i)
        &&& self.slots_of(i) <= max_chunks()
        &&& forall|b: u32| #[trigger] self.free_of(i).contains(b) ==> cs.contains_key(self.chunk_index_of(b))
        &&& forall|b: u32|
            #[trigger] self.user_of(i).contains(b) ==> cs.contains_key(self.chunk_index_of(b))
                && !self.free_of(i).contains(b)
        &&& forall|k: usize| #[trigger] cs.contains_key(k) ==> self.chunk_ok(i, cs[k])
        &&& forall|k1: usize, k2: usize|
            #![trigger cs[k1], cs[k2]]
            cs.contains_key(k1) && cs.contains_key(k2) && k1 != k2 && cs[k1] is Dynamic && cs[k2] is Dynamic
                ==> cs[k1]->Dynamic_0.index_view() != cs[k2]->Dynamic_0.index_view()
    }

    /// Number of chunks of size index `i`.
    pub closed spec fn chunk_count(&self, i: int) -> u32 {
        self.sizes@[i].total_chunks
    }

    /// Number of slots of the chunk list of size index `i`.
    pub closed spec fn slots_of(&self, i: int) -> nat {
        chunk_list_slots(self.sizes@[i].chunks)
    }

    /// The ledger lists each dedicated chunk once, with its memory object.
    pub open spec fn ledger_ok(&self) -> bool {
        let l = self.ledger_view();
        &&& forall|q: int|
            0 <= q < l.len() ==> {
                let (i, k, m) = #[trigger] l[q];
                &&& 0 <= i < self.classes()
                &&& self.chunks_of(i).contains_key(k)
                &&& self.chunks_of(i)[k] matches Chunk::Dedicated(mm, _) && mm == m
            }
        &&& forall|q1: int, q2: int|
            #![trigger l[q1], l[q2]]
            0 <= q1 < l.len() && 0 <= q2 < l.len() && q1 != q2 ==> (l[q1].0, l[q1].1) != (l[q2].0, l[q2].1)
        &&& forall|i: int, k: usize|
            #![trigger self.chunks_of(i)[k]]
            0 <= i < self.classes() && self.chunks_of(i).contains_key(k) && self.chunks_of(i)[k] is Dedicated
                ==> exists|q: int| 0 <= q < l.len() && #[trigger] l[q] == (i, k, self.chunks_of(i)[k].memory_view())
    }

    /// Well-formedness of the allocator.
    pub open spec fn wf(&self) -> bool {
        &&& self.granularity_view() > 0
        &&& self.per_chunk() == usize::BITS
        &&& self.max_block_size_view() * self.per_chunk() <= u64::MAX
        &&& self.user_count() == self.classes()
        &&& forall|i: int| 0 <= i < self.classes() ==> #[trigger] self.class_ok(i)
        &&& self.ledger_ok()
    }

    /// Number of user block sets kept.
    pub closed spec fn user_count(&self) -> nat {
        self.user@.len()
    }

    /// Size index of `block`.
    pub open spec fn class_of(&self, block: &DynamicBlock) -> int {
        self.size_index_of(block.size_view())
    }

    /// `block` was allocated from this allocator and not freed yet.
    pub open spec fn is_live(&self, block: &DynamicBlock) -> bool {
        let i = self.class_of(block);
        &&& 0 <= i < self.classes()
        &&& block.size_view() == self.block_size_of(i)
        &&& self.user_of(i).contains(block.index_view())
        &&& self.taken(i, *block)
    }

    /// Create new `DynamicAllocator`
    /// for `memory_type` with `memory_properties` specified,
    /// with `DynamicConfig` provided.
    /// The number of blocks per chunk is always the number of bits in `usize`.
    pub fn new(
        memory_type: u32,
        memory_properties: Properties,
        config: DynamicConfig,
        non_coherent_atom_size: u64,
    ) -> (r: Self)
        requires
            dynamic_config_ok(config, memory_properties),
        ensures
            r.wf(),
            r.memory_type_view() == memory_type,
            r.memory_properties_view() == memory_properties,
            r.granularity_view() == config.block_size_granularity,
            r.max_block_size_view() == config.max_block_size,
            r.held() == 0,
            forall|i: int| 0 <= i < r.classes() ==> r.chunk_count(i) == 0,
            forall|i: int| 0 <= i < r.classes() ==> #[trigger] r.user_of(i) == Set::<u32>::empty(),
    {
        let mut config = config;
        config.blocks_per_chunk = usize::BITS;
        let max_chunk_size = config.max_block_size.checked_mul(config.blocks_per_chunk as u64).expect(
            "Max chunk size must fit u64 to allocate it from Vulkan",
        );
        let count = config.max_block_size / config.block_size_granularity;
        proof {
            vstd::arithmetic::div_mod::lemma_fundamental_div_mod(
                config.max_block_size as int,
                config.block_size_granularity as int,
            );
        }
        let count = count as usize;
        let mut sizes: Vec<Size> = Vec::new();
        let mut i: usize = 0;
        while i < count
            invariant
                i <= count,
                sizes@.len() == i,
                forall|j: int|
                    0 <= j < i ==> {
                        &&& chunk_list_contents(#[trigger] sizes@[j].chunks).dom() == Set::<usize>::empty()
                        &&& chunk_list_slots(sizes@[j].chunks) == 0
                        &&& bitset_contents(sizes@[j].blocks) == Set::<u32>::empty()
                        &&& bitset_summary_ok(sizes@[j].blocks)
                        &&& sizes@[j].total_chunks == 0
                    },
            decreases count - i,
        {
            let ghost before = sizes@;
            let size = Size { chunks: chunk_list_new(), blocks: bitset_new(), total_chunks: 0 };
            sizes.push(size);
            proof {
                assert(sizes@[i as int] == size);
                assert forall|j: int| 0 <= j < i implies #[trigger] sizes@[j] == before[j] by {}
            }
            i = i + 1;
        }
        let r = DynamicAllocator {
            memory_type,
            memory_properties,
            block_size_granularity: config.block_size_granularity,
            blocks_per_chunk: config.blocks_per_chunk,
            non_coherent_atom_size,
            sizes,
            user: Ghost(Seq::new(count as nat, |j: int| Set::<u32>::empty())),
            ledger: Ghost(Seq::empty()),
        };
        proof {
            assert(r.max_block_size_view() == config.max_block_size) by {
                assert(config.block_size_granularity * (config.max_block_size / config.block_size_granularity)
                    == config.max_block_size);
            }
            assert forall|j: int| 0 <= j < r.classes() implies #[trigger] r.class_ok(j) by {
                assert(r.chunks_of(j).dom() =~= Set::<usize>::empty());
                assert(r.chunks_of(j) =~= Map::<usize, Chunk>::empty());
                assert(r.free_of(j) == Set::<u32>::empty());
            }
            assert(r.max_block_size_view() * r.per_chunk() <= u64::MAX);
            assert forall|j: int| 0 <= j < r.classes() implies r.chunk_count(j) == 0 by {
                assert(chunk_list_contents(r.sizes@[j].chunks).dom() == Set::<usize>::empty());
            }
        }
        r
    }

    /// Maximum allocation size.
    pub fn max_allocation(&self) -> (r: u64)
        requires
            self.wf(),
        ensures
            r == self.max_block_size_view(),
    {
        self.max_block_size()
    }

    /// Maximum block size.
    /// Any request bigger will result in panic.
    pub fn max_block_size(&self) -> (r: u64)
        requires
            self.wf(),
        ensures
            r == self.max_block_size_view(),
    {
        proof {
            let g = self.block_size_granularity as int;
            let n = self.sizes@.len() as int;
            let b = self.blocks_per_chunk as int;
            assert(g * n <= g * n * b) by (nonlinear_arith)
                requires g > 0, n >= 0, b >= 1;
        }
        self.block_size_granularity * self.sizes.len() as u64
    }

    fn max_chunks_per_size(&self) -> (r: u32)
        requires
            self.wf(),
        ensures
            r == max_chunks(),
    {
        max_blocks_per_size() / self.blocks_per_chunk
    }

    /// Returns size index.
    fn size_index(&self, size: u64) -> (r: usize)
        requires
            self.wf(),
            0 < size <= self.max_block_size_view(),
        ensures
            r == self.size_index_of(size as int),
            r < self.classes(),
            size <= self.block_size_of(r as int),
    {
        let q: u64 = (size - 1) / self.block_size_granularity;
        proof {
            let g = self.block_size_granularity as int;
            let n = self.sizes@.len() as int;
            vstd::arithmetic::div_mod::lemma_fundamental_div_mod((size - 1) as int, g);
            let qq = (size - 1) as int / g;
            assert(q == qq);
            assert(self.sizes.len() == self.sizes@.len());
            assert(qq * g <= size - 1) by (nonlinear_arith)
                requires size - 1 == g * qq + (size - 1) % g, (size - 1) % g >= 0;
            assert(qq < n) by (nonlinear_arith)
                requires qq * g <= size - 1, size <= g * n, g > 0, qq >= 0;
            assert(size <= g * (qq + 1)) by (nonlinear_arith)
                requires size - 1 == g * qq + (size - 1) % g, (size - 1) % g < g;
        }
        q as usize
    }

    /// Get block size for the size index.
    fn block_size(&self, index: usize) -> (r: u64)
        requires
            self.wf(),
            index < self.classes(),
        ensures
            r == self.block_size_of(index as int),
    {
        proof {
            let g = self.block_size_granularity as int;
            let n = self.sizes@.len() as int;
            let b = self.blocks_per_chunk as int;
            assert(g * (index + 1) <= g * n * b) by (nonlinear_arith)
                requires g > 0, index + 1 <= n, b >= 1;
            assert(index + 1 <= g * (index + 1)) by (nonlinear_arith)
                requires g > 0, index >= 0;
        }
        self.block_size_granularity * (index as u64 + 1)
    }
}

} // verus!

verus! {

impl DynamicAllocator {
    /// `self` and `other` have the same memory type, properties and block sizes.
    pub open spec fn same_config(&self, other: &Self) -> bool {
        &&& other.memory_type_view() == self.memory_type_view()
        &&& other.memory_properties_view() == self.memory_properties_view()
        &&& other.granularity_view() == self.granularity_view()
        &&& other.classes() == self.classes()
        &&& other.per_chunk() == self.per_chunk()
    }

    /// `new` is `self` after allocation: chunks are only added, blocks only become free
    /// when their chunk is new, and user blocks are unchanged.
    pub open spec fn grows(&self, new: &Self) -> bool {
        &&& self.same_config(new)
        &&& forall|i: int, k: usize|
            0 <= i < self.classes() && #[trigger] self.chunks_of(i).contains_key(k) ==> new.chunks_of(
                i,
            ).contains_key(k) && new.chunks_of(i)[k] == self.chunks_of(i)[k]
        &&& forall|i: int, b: u32|
            0 <= i < self.classes() && #[trigger] new.free_of(i).contains(b) ==> self.free_of(i).contains(b)
                || !self.chunks_of(i).contains_key(self.chunk_index_of(b))
        &&& forall|i: int| 0 <= i < self.classes() ==> #[trigger] new.user_of(i) == self.user_of(i)
    }

    /// Block `b` is the smallest free block of size index `i`.
    pub open spec fn reuses(&self, i: int, b: u32) -> bool {
        &&& self.free_of(i).contains(b)
        &&& forall|y: u32| #[trigger] self.free_of(i).contains(y) ==> b <= y
    }

    /// Block `b` of size index `i` was free or its chunk did not exist.
    pub open spec fn fresh(&self, i: int, b: u32) -> bool {
        self.free_of(i).contains(b) || !self.chunks_of(i).contains_key(self.chunk_index_of(b))
    }
}

/// Growth keeps blocks taken.
pub proof fn lemma_grows_taken(a: &DynamicAllocator, b: &DynamicAllocator, i: int, blk: DynamicBlock)
    requires
        a.grows(b),
        0 <= i < a.classes(),
        a.taken(i, blk),
    ensures
        b.taken(i, blk),
{
    let k = a.chunk_index_of(blk.index_view());
    assert(a.chunks_of(i).contains_key(k));
    if b.free_of(i).contains(blk.index_view()) {
        assert(a.free_of(i).contains(blk.index_view()) || !a.chunks_of(i).contains_key(k));
    }
}

/// Growth is transitive.
pub proof fn lemma_grows_trans(a: &DynamicAllocator, b: &DynamicAllocator, c: &DynamicAllocator)
    requires
        a.grows(b),
        b.grows(c),
    ensures
        a.grows(c),
{
    assert forall|i: int, k: usize| 0 <= i < a.classes() && #[trigger] a.chunks_of(i).contains_key(k) implies c.chunks_of(
        i,
    ).contains_key(k) && c.chunks_of(i)[k] == a.chunks_of(i)[k] by {
        assert(b.chunks_of(i).contains_key(k));
    }
    assert forall|i: int, x: u32| 0 <= i < a.classes() && #[trigger] c.free_of(i).contains(x) implies a.free_of(i).contains(x)
        || !a.chunks_of(i).contains_key(a.chunk_index_of(x)) by {
        assert(b.free_of(i).contains(x) || !b.chunks_of(i).contains_key(b.chunk_index_of(x)));
        if b.free_of(i).contains(x) {
        } else {
            if a.chunks_of(i).contains_key(a.chunk_index_of(x)) {
                assert(b.chunks_of(i).contains_key(a.chunk_index_of(x)));
            }
        }
    }
    assert forall|i: int| 0 <= i < a.classes() implies #[trigger] c.user_of(i) == a.user_of(i) by {
        assert(b.user_of(i) == a.user_of(i));
    }
}


} // verus!

verus! {

/// Blocks `start + 1 .. start + n` of a new chunk.
pub open spec fn chunk_rest(start: u32, n: u32) -> Set<u32> {
    Set::new(|b: u32| start < b < start + n)
}

/// `b` and `a` agree on every size index below `lo`.
pub open spec fn unchanged_below(a: &DynamicAllocator, b: &DynamicAllocator, lo: int) -> bool {
    forall|j: int|
        0 <= j < lo && j < a.classes() ==> {
            &&& #[trigger] b.chunks_of(j) == a.chunks_of(j)
            &&& b.free_of(j) == a.free_of(j)
            &&& b.slots_of(j) == a.slots_of(j)
            &&& b.chunk_count(j) == a.chunk_count(j)
        }
}

/// `b` and `a` agree on every size index but `i`.
pub open spec fn same_except(a: &DynamicAllocator, b: &DynamicAllocator, i: int) -> bool {
    &&& a.same_config(b)
    &&& b.user_count() == a.user_count()
    &&& forall|j: int|
        0 <= j < a.classes() && j != i ==> {
            &&& #[trigger] b.chunks_of(j) == a.chunks_of(j)
            &&& b.free_of(j) == a.free_of(j)
            &&& b.free_summary_ok(j) == a.free_summary_ok(j)
            &&& b.slots_of(j) == a.slots_of(j)
            &&& b.chunk_count(j) == a.chunk_count(j)
        }
    &&& forall|j: int| 0 <= j < a.classes() ==> #[trigger] b.user_of(j) == a.user_of(j)
}

proof fn lemma_div_in_chunk(b: u32, ci: u32, n: u32)
    requires
        n > 0,
        ci * n <= b < ci * n + n,
    ensures
        b / n == ci,
{
    vstd::arithmetic::div_mod::lemma_fundamental_div_mod(b as int, n as int);
    let q = b as int / n as int;
    let r = b as int % n as int;
    assert(q == ci) by (nonlinear_arith)
        requires b == n * q + r, 0 <= r < n, ci * n <= b < ci * n + n, n > 0;
}

/// Adding a valid chunk at a vacant index of size index `i`, with its other blocks free,
/// keeps the allocator well-formed.
proof fn lemma_add_chunk(a: &DynamicAllocator, b: &DynamicAllocator, i: int, ci: usize, chunk: Chunk)
    requires
        a.wf(),
        0 <= i < a.classes(),
        same_except(a, b, i),
        !a.chunks_of(i).contains_key(ci),
        ci * a.per_chunk() + a.per_chunk() <= u32::MAX,
        b.chunks_of(i) == a.chunks_of(i).insert(ci, chunk),
        b.free_of(i) == a.free_of(i).union(chunk_rest((ci * a.per_chunk()) as u32, a.per_chunk())),
        b.free_summary_ok(i),
        b.chunk_count(i) == a.chunk_count(i) + 1,
        b.chunk_count(i) <= b.slots_of(i),
        ci < b.slots_of(i) <= max_chunks(),
        b.slots_of(i) >= a.slots_of(i),
        a.chunk_ok(i, chunk),
        chunk matches Chunk::Dynamic(blk) ==> forall|k: usize|
            #[trigger] a.chunks_of(i).contains_key(k) && a.chunks_of(i)[k] is Dynamic ==> a.chunks_of(
                i,
            )[k]->Dynamic_0.index_view() != blk.index_view(),
        match chunk {
            Chunk::Dedicated(m, _) => b.ledger_view() == a.ledger_view().push((i, ci, m)),
            Chunk::Dynamic(_) => b.ledger_view() == a.ledger_view(),
        },
    ensures
        b.wf(),
        a.grows(b),
{
    let n = a.per_chunk();
    let start = (ci * n) as u32;
    assert(a.class_ok(i));
    assert(b.chunks_of(i).dom() == a.chunks_of(i).dom().insert(ci));
    assert forall|x: u32| #[trigger] b.free_of(i).contains(x) implies b.chunks_of(i).contains_key(b.chunk_index_of(x)) by {
        if !a.free_of(i).contains(x) {
            assert(chunk_rest(start, n).contains(x));
            lemma_div_in_chunk(x, ci as u32, n);
        }
    }
    assert forall|x: u32| #[trigger] b.user_of(i).contains(x) implies b.chunks_of(i).contains_key(b.chunk_index_of(x))
        && !b.free_of(i).contains(x) by {
        assert(a.user_of(i).contains(x));
        if chunk_rest(start, n).contains(x) {
            lemma_div_in_chunk(x, ci as u32, n);
        }
    }
    // Chunks of other size indices that take their blocks from size index `i` stay valid.
    assert forall|j: int| 0 <= j < b.classes() implies #[trigger] b.class_ok(j) by {
        assert(a.class_ok(j));
        assert forall|k: usize| #[trigger] b.chunks_of(j).contains_key(k) implies b.chunk_ok(j, b.chunks_of(j)[k]) by {
            let c = b.chunks_of(j)[k];
            if !(j == i && k == ci) {
                assert(a.chunks_of(j).contains_key(k));
                assert(c == a.chunks_of(j)[k]);
            }
            assert(a.chunk_ok(j, c));
            match c {
                Chunk::Dynamic(blk) => {
                    let jj = a.chunk_class(j);
                    assert(jj >= j) by (nonlinear_arith)
                        requires jj == n * (j + 1) - 1, n >= 1, j >= 0;
                    assert(0 <= jj < a.classes());
                    assert(a.class_ok(jj));
                    let x = blk.index_view();
                    assert(b.user_of(jj) == a.user_of(jj));
                    if jj == i {
                        assert(a.chunks_of(i).contains_key(a.chunk_index_of(x)));
                        if chunk_rest(start, n).contains(x) {
                            lemma_div_in_chunk(x, ci as u32, n);
                        }
                        assert(b.chunks_of(i)[a.chunk_index_of(x)] == a.chunks_of(i)[a.chunk_index_of(x)]);
                        assert(b.taken(jj, blk));
                    } else {
                        assert(b.chunks_of(jj) == a.chunks_of(jj));
                        assert(b.free_of(jj) == a.free_of(jj));
                        assert(b.taken(jj, blk));
                    }
                },
                Chunk::Dedicated(_, _) => {},
            }
        }
        if j == i {
            assert(b.chunks_of(i).len() == a.chunks_of(i).len() + 1);
            assert forall|k1: usize, k2: usize|
                #![trigger b.chunks_of(i)[k1], b.chunks_of(i)[k2]]
                b.chunks_of(i).contains_key(k1) && b.chunks_of(i).contains_key(k2) && k1 != k2 && b.chunks_of(i)[k1] is Dynamic
                    && b.chunks_of(i)[k2] is Dynamic implies b.chunks_of(i)[k1]->Dynamic_0.index_view() != b.chunks_of(
                i,
            )[k2]->Dynamic_0.index_view() by {
                if k1 != ci && k2 != ci {
                    assert(a.chunks_of(i)[k1] == b.chunks_of(i)[k1]);
                    assert(a.chunks_of(i)[k2] == b.chunks_of(i)[k2]);
                } else if k1 == ci {
                    assert(a.chunks_of(i).contains_key(k2));
                } else {
                    assert(a.chunks_of(i).contains_key(k1));
                }
            }
        }
    }
    let la = a.ledger_view();
    let lb = b.ledger_view();
    assert forall|q: int| 0 <= q < lb.len() implies {
        let (ii, k, m) = #[trigger] lb[q];
        &&& 0 <= ii < b.classes()
        &&& b.chunks_of(ii).contains_key(k)
        &&& b.chunks_of(ii)[k] matches Chunk::Dedicated(mm, _) && mm == m
    } by {
        if q < la.len() {
            assert(lb[q] == la[q]);
        }
    }
    assert forall|q1: int, q2: int|
        #![trigger lb[q1], lb[q2]]
        0 <= q1 < lb.len() && 0 <= q2 < lb.len() && q1 != q2 implies (lb[q1].0, lb[q1].1) != (lb[q2].0, lb[q2].1) by {
        if q1 < la.len() && q2 < la.len() {
            assert(lb[q1] == la[q1] && lb[q2] == la[q2]);
        } else if q1 < la.len() {
            assert(lb[q1] == la[q1]);
            assert(a.chunks_of(la[q1].0).contains_key(la[q1].1));
        } else {
            assert(lb[q2] == la[q2]);
            assert(a.chunks_of(la[q2].0).contains_key(la[q2].1));
        }
    }
    assert forall|ii: int, k: usize|
        #![trigger b.chunks_of(ii)[k]]
        0 <= ii < b.classes() && b.chunks_of(ii).contains_key(k) && b.chunks_of(ii)[k] is Dedicated implies exists|q: int|
        0 <= q < lb.len() && #[trigger] lb[q] == (ii, k, b.chunks_of(ii)[k].memory_view()) by {
        if ii == i && k == ci {
            let q = la.len() as int;
            assert(lb[q] == (ii, k, b.chunks_of(ii)[k].memory_view()));
        } else {
            assert(a.chunks_of(ii).contains_key(k));
            assert(a.chunks_of(ii)[k] == b.chunks_of(ii)[k]);
            let q = choose|q: int| 0 <= q < la.len() && #[trigger] la[q] == (ii, k, a.chunks_of(ii)[k].memory_view());
            assert(lb[q] == la[q]);
        }
    }
    assert forall|ii: int, k: usize| 0 <= ii < a.classes() && #[trigger] a.chunks_of(ii).contains_key(k) implies b.chunks_of(
        ii,
    ).contains_key(k) && b.chunks_of(ii)[k] == a.chunks_of(ii)[k] by {
        if ii == i {
            assert(k != ci);
        }
    }
    assert forall|ii: int, x: u32| 0 <= ii < a.classes() && #[trigger] b.free_of(ii).contains(x) implies a.free_of(ii).contains(x)
        || !a.chunks_of(ii).contains_key(a.chunk_index_of(x)) by {
        if ii == i && !a.free_of(i).contains(x) {
            assert(chunk_rest(start, n).contains(x));
            lemma_div_in_chunk(x, ci as u32, n);
        }
    }
}

} // verus!

verus! {

/// Taking a free block of size index `i` out of the free set keeps the allocator well-formed.
proof fn lemma_take_free(a: &DynamicAllocator, b: &DynamicAllocator, i: int, x: u32)
    requires
        a.wf(),
        0 <= i < a.classes(),
        same_except(a, b, i),
        b.chunks_of(i) == a.chunks_of(i),
        b.free_of(i) == a.free_of(i).remove(x),
        b.free_summary_ok(i),
        b.slots_of(i) == a.slots_of(i),
        b.chunk_count(i) == a.chunk_count(i),
        b.ledger_view() == a.ledger_view(),
    ensures
        b.wf(),
        a.grows(b),
{
    let n = a.per_chunk();
    assert forall|j: int| 0 <= j < b.classes() implies #[trigger] b.class_ok(j) by {
        assert(a.class_ok(j));
        assert(b.chunks_of(j) == a.chunks_of(j));
        assert forall|k: usize| #[trigger] b.chunks_of(j).contains_key(k) implies b.chunk_ok(j, b.chunks_of(j)[k]) by {
            let c = b.chunks_of(j)[k];
            assert(a.chunk_ok(j, c));
            match c {
                Chunk::Dynamic(blk) => {
                    let jj = a.chunk_class(j);
                    assert(jj >= j) by (nonlinear_arith)
                        requires jj == n * (j + 1) - 1, n >= 1, j >= 0;
                    assert(b.user_of(jj) == a.user_of(jj));
                    assert(b.chunks_of(jj) == a.chunks_of(jj));
                    assert(b.taken(jj, blk));
                },
                Chunk::Dedicated(_, _) => {},
            }
        }
    }
    assert forall|ii: int, k: usize|
        #![trigger b.chunks_of(ii)[k]]
        0 <= ii < b.classes() && b.chunks_of(ii).contains_key(k) && b.chunks_of(ii)[k] is Dedicated implies exists|q: int|
        0 <= q < b.ledger_view().len() && #[trigger] b.ledger_view()[q] == (ii, k, b.chunks_of(ii)[k].memory_view()) by {
        assert(a.chunks_of(ii) == b.chunks_of(ii));
    }
    assert forall|q: int| 0 <= q < b.ledger_view().len() implies {
        let (ii, k, m) = #[trigger] b.ledger_view()[q];
        &&& 0 <= ii < b.classes()
        &&& b.chunks_of(ii).contains_key(k)
        &&& b.chunks_of(ii)[k] matches Chunk::Dedicated(mm, _) && mm == m
    } by {
        let ii = b.ledger_view()[q].0;
        assert(a.chunks_of(ii) == b.chunks_of(ii));
    }
    assert forall|ii: int, k: usize| 0 <= ii < a.classes() && #[trigger] a.chunks_of(ii).contains_key(k) implies b.chunks_of(
        ii,
    ).contains_key(k) && b.chunks_of(ii)[k] == a.chunks_of(ii)[k] by {
        assert(a.chunks_of(ii) == b.chunks_of(ii));
    }
    assert forall|ii: int, x: u32| 0 <= ii < a.classes() && #[trigger] b.free_of(ii).contains(x) implies a.free_of(ii).contains(x)
        || !a.chunks_of(ii).contains_key(a.chunk_index_of(x)) by {
        if ii != i {
            assert(b.chunks_of(ii) == a.chunks_of(ii));
            assert(a.free_of(ii) == b.free_of(ii));
        }
    }
}

impl DynamicAllocator {
    /// Allocate super-block to use as chunk memory: a memory object of its own when
    /// larger than the largest block, else a block of the matching size.
    fn alloc_chunk<D: Device>(&mut self, device: &D, size: u64) -> (r: Result<(Chunk, u64), MemoryError>)
        requires
            old(self).wf(),
            0 < size,
            size % old(self).granularity_view() == 0,
            size <= old(self).max_block_size_view() * old(self).per_chunk(),
        ensures
            final(self).wf(),
            old(self).grows(final(self)),
            r matches Ok((chunk, allocated)) ==> chunk.range_view().start <= chunk.range_view().end
                && chunk.range_view().end - chunk.range_view().start == size,
            r matches Ok((chunk, allocated)) ==> chunk.memory_view().properties == old(self).memory_properties_view(),
            r matches Ok((chunk, allocated)) ==> chunk.range_view().start as int % size as int == 0,
            r matches Ok((chunk, allocated)) ==> (chunk.ptr_view() matches Some(p) ==> mapping_addressable(p, chunk.range_view())),
            r matches Ok((chunk, allocated)) ==> allocated <= old(self).max_block_size_view() * old(self).per_chunk(),
            r matches Ok((chunk, allocated)) ==> size <= old(self).max_block_size_view() ==> final(self).held()
                == old(self).held() + allocated,
            r matches Ok((chunk, allocated)) ==> size > old(self).max_block_size_view() ==> chunk is Dedicated
                && allocated == size && *final(self) == *old(self),
            r matches Ok((chunk, allocated)) ==> size <= old(self).max_block_size_view() ==> {
                let j = old(self).size_index_of(size as int);
                &&& chunk matches Chunk::Dynamic(blk) && final(self).taken(j, blk) && old(self).fresh(j, blk.index_view())
                &&& 0 <= j < old(self).classes()
                &&& unchanged_below(old(self), final(self), j)
            },
            r is Err ==> *final(self) == *old(self),
            size <= old(self).max_block_size_view() && old(self).free_of(old(self).size_index_of(size as int))
                != Set::<u32>::empty() ==> r is Ok,
            r matches Ok((chunk, allocated)) ==> (chunk matches Chunk::Dedicated(m, _) ==> m.size == size && device.grants(
                old(self).memory_type_view(),
                size,
                m.raw,
            )),
            ledger_granted(device, old(self).memory_type_view(), old(self).ledger_view(), final(self).ledger_view()),
        decreases (if size > self.max_block_size_view() {
            0
        } else {
            self.max_block_size_view() - size + 1
        }), 2int,
    {
        if size > self.max_block_size() {
            let raw = match device.allocate(self.memory_type, size) {
                Ok(raw) => raw,
                Err(error) => return Err(MemoryError::AllocationError(error)),
            };
            let mapping = if self.memory_properties.contains(Properties::cpu_visible_only()) {
                match device.map(raw, 0..size) {
                    Ok(ptr) => Some(ptr),
                    Err(error) => {
                        device.free(raw);
                        return Err(MemoryError::MappingError(error));
                    },
                }
            } else {
                None
            };
            let memory = Memory::from_raw(raw, size, self.memory_properties, self.non_coherent_atom_size);
            proof {
                vstd::arithmetic::div_mod::lemma_small_mod(0, size as nat);
            }
            Ok((Chunk::Dedicated(memory, mapping), size))
        } else {
            let (block, allocated) = self.alloc_from_chunk(device, size)?;
            proof {
                let g = old(self).granularity_view() as int;
                let j = old(self).size_index_of(size as int);
                vstd::arithmetic::div_mod::lemma_fundamental_div_mod(size as int, g);
                vstd::arithmetic::div_mod::lemma_fundamental_div_mod((size - 1) as int, g);
                assert(g * (j + 1) == size) by (nonlinear_arith)
                    requires
                        size == g * (size as int / g) + size as int % g,
                        size as int % g == 0,
                        size - 1 == g * j + (size - 1) % g,
                        0 <= (size - 1) % g < g,
                        g > 0,
                ;
                assert(old(self).block_size_of(j) == size);
                assert(block.range_view().start as int % size as int == 0);
            }
            Ok((Chunk::Dynamic(block), allocated))
        }
    }

    /// Allocate a block of the size that serves `size` bytes, from a free block of that size
    /// or from a new chunk.
    fn alloc_from_chunk<D: Device>(&mut self, device: &D, size: u64) -> (r: Result<(DynamicBlock, u64), MemoryError>)
        requires
            old(self).wf(),
            0 < size <= old(self).max_block_size_view(),
        ensures
            final(self).wf(),
            old(self).grows(final(self)),
            match r {
                Ok((blk, allocated)) => {
                    let i = old(self).size_index_of(size as int);
                    &&& 0 <= i < old(self).classes()
                    &&& final(self).taken(i, blk)
                    &&& old(self).fresh(i, blk.index_view())
                    &&& blk.wf()
                    &&& blk.size_view() == old(self).block_size_of(i)
                    &&& blk.range_view().start as int % old(self).block_size_of(i) == 0
                    &&& blk.memory_view().properties == old(self).memory_properties_view()
                    &&& final(self).held() == old(self).held() + allocated
                    &&& allocated <= old(self).max_block_size_view() * old(self).per_chunk()
                    &&& old(self).free_of(i) != Set::<u32>::empty() ==> {
                        &&& old(self).reuses(i, blk.index_view())
                        &&& allocated == 0
                        &&& final(self).free_of(i) == old(self).free_of(i).remove(blk.index_view())
                        &&& final(self).chunks_of(i) == old(self).chunks_of(i)
                    }
                },
                Err(_) => *final(self) == *old(self) && old(self).free_of(old(self).size_index_of(size as int))
                    == Set::<u32>::empty(),
            },
            unchanged_below(old(self), final(self), old(self).size_index_of(size as int)),
            ledger_granted(device, old(self).memory_type_view(), old(self).ledger_view(), final(self).ledger_view()),
        decreases self.max_block_size_view() - size + 1, 1int,
    {
        let i = self.size_index(size);
        let ghost s0 = *self;
        proof {
            assert(s0.class_ok(i as int));
            lemma_max_chunks();
            assert forall|x: u32| #[trigger] bitset_contents(self.sizes@[i as int].blocks).contains(x) implies x
                < bitset_max_index() by {
                assert(self.free_of(i as int).contains(x));
                let k = self.chunk_index_of(x) as int;
                let bits = usize::BITS as int;
                let mc = max_chunks();
                assert(k < mc);
                assert(x < bitset_max_index()) by (nonlinear_arith)
                    requires
                        k == x as int / bits,
                        k < mc,
                        mc * bits == bitset_max_index(),
                        bits > 0,
                        x >= 0,
                ;
            }
        }
        let (block_index, allocated) = match bitset_first(&self.sizes[i].blocks) {
            Some(b) => {
                bitset_remove(&mut self.sizes[i].blocks, b);
                proof {
                    assert(same_except(&s0, self, i as int));
                    lemma_take_free(&s0, self, i as int, b);
                    assert(s0.class_ok(i as int));
                    assert(s0.free_of(i as int).contains(b));
                    assert(s0.chunks_of(i as int).contains_key(s0.chunk_index_of(b)));
                    assert(self.chunks_of(i as int) == s0.chunks_of(i as int));
                    assert(self.held() == s0.held());
                }
                (b, 0u64)
            },
            None => {
                proof {
                    let g = self.block_size_granularity as int;
                    let m = self.sizes@.len() as int;
                    assert(self.block_size_of(i as int) >= size);
                    assert(g * (i + 1) <= g * m) by (nonlinear_arith)
                        requires i + 1 <= m, g > 0;
                    assert(self.block_size_of(i as int) <= self.max_block_size_view());
                }
                match self.new_chunk(device, i) {
                    Ok(x) => x,
                    Err(e) => return Err(e),
                }
            },
        };
        proof {
            assert(self.chunks_of(i as int).contains_key(self.chunk_index_of(block_index)));
            assert(s0.fresh(i as int, block_index));
        }
        let blk = self.block_at(i, block_index);
        Ok((blk, allocated))
    }

    /// Add a chunk to size index `i`: its first block is returned, the others become free.
    #[verifier::spinoff_prover]
    #[verifier::rlimit(30)]
    fn new_chunk<D: Device>(&mut self, device: &D, i: usize) -> (r: Result<(u32, u64), MemoryError>)
        requires
            old(self).wf(),
            i < old(self).classes(),
        ensures
            final(self).wf(),
            old(self).grows(final(self)),
            match r {
                Ok((b, allocated)) => {
                    &&& final(self).chunks_of(i as int).contains_key(final(self).chunk_index_of(b))
                    &&& !final(self).free_of(i as int).contains(b)
                    &&& old(self).fresh(i as int, b)
                    &&& final(self).held() == old(self).held() + allocated
                    &&& allocated <= old(self).max_block_size_view() * old(self).per_chunk()
                },
                Err(_) => *final(self) == *old(self),
            },
            unchanged_below(old(self), final(self), i as int),
            old(self).chunk_count(i as int) == max_chunks() ==> r == Err::<(u32, u64), MemoryError>(
                MemoryError::AllocationError(
                    crate::memory::error::AllocationError::OutOfMemoryError(OutOfMemoryError::OutOfHostMemory),
                ),
            ),
            old(self).chunk_count(i as int) != max_chunks() && old(self).chunk_size_of(i as int)
                <= old(self).max_block_size_view() && old(self).free_of(old(self).chunk_class(i as int))
                != Set::<u32>::empty() ==> r is Ok,
            ledger_granted(device, old(self).memory_type_view(), old(self).ledger_view(), final(self).ledger_view()),
        decreases self.max_block_size_view() - self.block_size_of(i as int) + 1, 0int,
    {
        let ghost s0 = *self;
        proof {
            let g = self.block_size_granularity as int;
            let m = self.sizes@.len() as int;
            assert(g * (i + 1) <= g * m) by (nonlinear_arith)
                requires i + 1 <= m, g > 0;
            assert(self.block_size_of(i as int) <= self.max_block_size_view());
        }
        if self.sizes[i].total_chunks == self.max_chunks_per_size() {
            proof {
                assert(unchanged_below(&s0, self, i as int));
            }
            return Err(
                MemoryError::AllocationError(
                    crate::memory::error::AllocationError::OutOfMemoryError(OutOfMemoryError::OutOfHostMemory),
                ),
            );
        }
        let bsz = self.block_size(i);
        proof {
            let g = self.block_size_granularity as int;
            let bs = g * (i + 1);
            let n = self.blocks_per_chunk as int;
            let m = self.sizes@.len() as int;
            assert(g * m * n <= u64::MAX);
            assert(bs * n <= g * m * n) by (nonlinear_arith)
                requires bs == g * (i + 1), i + 1 <= m, n >= 0, g >= 0;
            assert(bs * n <= u64::MAX);
            assert(bs * n == g * ((i + 1) * n)) by (nonlinear_arith)
                requires bs == g * (i + 1);
            vstd::arithmetic::div_mod::lemma_mod_multiples_basic((i + 1) * n, g);
            vstd::arithmetic::mul::lemma_mul_is_commutative(g, (i + 1) * n);
            assert(bs * n > 0) by (nonlinear_arith)
                requires bs == g * (i + 1), g > 0, i >= 0, n > 0;
            assert(bsz == bs);
            assert(bsz * n <= u64::MAX);
        }
        let chunk_size = bsz * self.blocks_per_chunk as u64;
        proof {
            let n = self.blocks_per_chunk as int;
            assert(chunk_size > bsz) by (nonlinear_arith)
                requires chunk_size == bsz * n, n >= 2, bsz > 0;
        }
        proof {
            assert(self.max_block_size_view() - chunk_size + 1 < self.max_block_size_view() - bsz + 1);
        }
        let (chunk, allocated) = match self.alloc_chunk(device, chunk_size) {
            Ok(x) => x,
            Err(e) => {
                proof {
                    assert(unchanged_below(&s0, self, i as int));
                    let g = s0.block_size_granularity as int;
                    let n = s0.blocks_per_chunk as int;
                    let k = (i + 1) * n;
                    lemma_size_index_of_multiple(g, k);
                    assert(chunk_size == g * k) by (nonlinear_arith)
                        requires chunk_size == bsz * n, bsz == g * (i + 1), k == (i + 1) * n;
                    assert(chunk_size == s0.chunk_size_of(i as int)) by (nonlinear_arith)
                        requires chunk_size == bsz * n, bsz == g * (i + 1), s0.chunk_size_of(i as int) == g * (i + 1) * n;
                    assert(s0.chunk_class(i as int) == k - 1) by (nonlinear_arith)
                        requires s0.chunk_class(i as int) == n * (i + 1) - 1, k == (i + 1) * n;
                    assert(s0.size_index_of(chunk_size as int) == s0.chunk_class(i as int));
                }
                return Err(e);
            },
        };
        let ghost s1 = *self;
        let ghost ch = chunk;
        proof {
            let g = self.block_size_granularity as int;
            let n = self.blocks_per_chunk as int;
            let k = (i + 1) * n;
            let j = s0.chunk_class(i as int);
            lemma_size_index_of_multiple(g, k);
            assert(chunk_size == g * k) by (nonlinear_arith)
                requires chunk_size == bsz * n, bsz == g * (i + 1), k == (i + 1) * n;
            assert(chunk_size == s0.chunk_size_of(i as int)) by (nonlinear_arith)
                requires chunk_size == bsz * n, bsz == g * (i + 1), s0.chunk_size_of(i as int) == g * (i + 1) * n;
            assert(k - 1 > i) by (nonlinear_arith)
                requires k == (i + 1) * n, n >= 2, i >= 0;
            assert(j == k - 1) by (nonlinear_arith)
                requires j == n * (i + 1) - 1, k == (i + 1) * n;
            assert(s0.size_index_of(chunk_size as int) == j);
            assert(s1.chunks_of(i as int) == s0.chunks_of(i as int));
            assert(s0.class_ok(i as int));
            assert(s1.class_ok(i as int));
            match ch {
                Chunk::Dedicated(m, _) => {},
                Chunk::Dynamic(blk) => {
                    assert(s0.class_ok(j));
                    let x = blk.index_view();
                    assert(s0.fresh(j, x));
                    if s0.user_of(j).contains(x) {
                        assert(s0.chunks_of(j).contains_key(s0.chunk_index_of(x)));
                        assert(!s0.free_of(j).contains(x));
                    }
                    assert(s1.user_of(j) == s0.user_of(j));
                    assert forall|kk: usize|
                        #[trigger] s1.chunks_of(i as int).contains_key(kk) && s1.chunks_of(i as int)[kk] is Dynamic
                            implies s1.chunks_of(i as int)[kk]->Dynamic_0.index_view() != x by {
                        let c = s0.chunks_of(i as int)[kk];
                        assert(s0.chunk_ok(i as int, c));
                    }
                },
            }
            let st = ch.range_view().start as int;
            let bs = bsz as int;
            let nn = self.blocks_per_chunk as int;
            assert(bs > 0 && nn > 0);
            vstd::arithmetic::div_mod::lemma_mod_mod(st, bs, nn);
            vstd::arithmetic::div_mod::lemma_small_mod(0, bs as nat);
            assert(st % bs == 0);
            assert(s1.chunk_ok(i as int, ch));
        }
        let chunk_index = chunk_list_push(&mut self.sizes[i].chunks, chunk);
        self.sizes[i].total_chunks = self.sizes[i].total_chunks + 1;
        proof {
            let mc = max_chunks();
            let bits = usize::BITS as int;
            lemma_max_chunks();
            let ci = chunk_index as int;
            assert(ci * bits + bits <= mc * bits) by (nonlinear_arith)
                requires ci + 1 <= mc, bits >= 0;
        }
        let chunk_index = chunk_index as u32;
        let block_index_start = chunk_index * self.blocks_per_chunk;
        let block_index_end = block_index_start + self.blocks_per_chunk;
        let mut block_index = block_index_start + 1;
        let ghost s2 = *self;
        while block_index < block_index_end
            invariant
                block_index_start < block_index <= block_index_end,
                block_index_end <= bitset_max_index(),
                i < self.sizes@.len(),
                self.sizes@.len() == s2.sizes@.len(),
                forall|j: int| 0 <= j < self.sizes@.len() && j != i ==> self.sizes@[j] == s2.sizes@[j],
                self.sizes@[i as int].chunks == s2.sizes@[i as int].chunks,
                self.sizes@[i as int].total_chunks == s2.sizes@[i as int].total_chunks,
                self.memory_type == s2.memory_type,
                self.memory_properties == s2.memory_properties,
                self.blocks_per_chunk == s2.blocks_per_chunk,
                self.block_size_granularity == s2.block_size_granularity,
                self.non_coherent_atom_size == s2.non_coherent_atom_size,
                self.user == s2.user,
                self.ledger == s2.ledger,
                bitset_contents(self.sizes@[i as int].blocks) == s1.free_of(i as int).union(
                    Set::new(|x: u32| block_index_start < x < block_index),
                ),
                bitset_summary_ok(self.sizes@[i as int].blocks),
            decreases block_index_end - block_index,
        {
            let old_present = bitset_add(&mut self.sizes[i].blocks, block_index);
            block_index = block_index + 1;
            proof {
                assert(bitset_contents(self.sizes@[i as int].blocks) =~= s1.free_of(i as int).union(
                    Set::new(|x: u32| block_index_start < x < block_index),
                ));
            }
        }
        proof {
            assert forall|j: int| 0 <= j < self.sizes@.len() && j != i implies self.sizes@[j] == s1.sizes@[j] by {
                assert(self.sizes@[j] == s2.sizes@[j]);
            }
            assert forall|j: int| 0 <= j < s1.classes() && j != i implies {
                &&& #[trigger] self.chunks_of(j) == s1.chunks_of(j)
                &&& self.free_of(j) == s1.free_of(j)
                &&& self.slots_of(j) == s1.slots_of(j)
                &&& self.chunk_count(j) == s1.chunk_count(j)
            } by {
                assert(self.sizes@[j] == s1.sizes@[j]);
            }
            assert(self.free_of(i as int) =~= s1.free_of(i as int).union(
                chunk_rest((chunk_index as usize * s1.per_chunk()) as u32, s1.per_chunk()),
            ));
            match ch {
                Chunk::Dedicated(m, _) => {
                    self.ledger@ = self.ledger@.push((i as int, chunk_index as usize, m));
                },
                Chunk::Dynamic(_) => {},
            }
            lemma_add_chunk(&s1, self, i as int, chunk_index as usize, ch);
            lemma_grows_trans(&s0, &s1, self);
            let n = s1.per_chunk();
            lemma_div_in_chunk(block_index_start, chunk_index, n);
            assert(self.chunks_of(i as int).contains_key(self.chunk_index_of(block_index_start)));
            assert(!s1.chunks_of(i as int).contains_key(chunk_index as usize));
            assert(!s1.free_of(i as int).contains(block_index_start));
            assert(!chunk_rest((chunk_index as usize * s1.per_chunk()) as u32, s1.per_chunk()).contains(
                block_index_start,
            ));
            assert(!self.free_of(i as int).contains(block_index_start));
            assert(s0.fresh(i as int, block_index_start));
            match ch {
                Chunk::Dedicated(m, _) => {
                    assert(self.ledger_view().drop_last() =~= s1.ledger_view());
                    assert(self.held() == s1.held() + m.size);
                },
                Chunk::Dynamic(_) => {},
            }
            assert(self.held() == s0.held() + allocated);
            assert forall|jj: int| 0 <= jj < i && jj < s0.classes() implies {
                &&& #[trigger] self.chunks_of(jj) == s0.chunks_of(jj)
                &&& self.free_of(jj) == s0.free_of(jj)
                &&& self.slots_of(jj) == s0.slots_of(jj)
                &&& self.chunk_count(jj) == s0.chunk_count(jj)
            } by {
                assert(self.sizes@[jj] == s1.sizes@[jj]);
                assert(s1.chunks_of(jj) == s0.chunks_of(jj));
            }
            assert(unchanged_below(&s0, self, i as int));
        }
        Ok((block_index_start, allocated))
    }

    /// Block `b` of size index `i`, whose chunk exists.
    fn block_at(&self, i: usize, b: u32) -> (r: DynamicBlock)
        requires
            self.wf(),
            i < self.classes(),
            self.chunks_of(i as int).contains_key(self.chunk_index_of(b)),
        ensures
            r.index_view() == b,
            r.range_view() == self.block_range_of(i as int, b),
            r.memory_view() == self.chunks_of(i as int)[self.chunk_index_of(b)].memory_view(),
            r.ptr_view() == self.block_ptr_of(i as int, b),
            r.wf(),
            r.size_view() == self.block_size_of(i as int),
            r.memory_view().properties == self.memory_properties_view(),
            r.range_view().start as int % self.block_size_of(i as int) == 0,
    {
        proof {
            assert(self.class_ok(i as int));
        }
        let chunk_index = b / self.blocks_per_chunk;
        let chunk = chunk_list_get(&self.sizes[i].chunks, chunk_index as usize);
        let chunk_range = chunk.range();
        let block_size = self.block_size(i);
        proof {
            let n = self.blocks_per_chunk as int;
            let bs = block_size as int;
            let off = (b % self.blocks_per_chunk) as int;
            assert(self.chunk_ok(i as int, *chunk));
            assert(chunk_range.end - chunk_range.start == bs * n) by (nonlinear_arith)
                requires
                    chunk_range.end - chunk_range.start == self.chunk_size_of(i as int),
                    self.chunk_size_of(i as int) == self.block_size_of(i as int) * n,
                    bs == self.block_size_of(i as int);
            assert(off * bs + bs <= bs * n) by (nonlinear_arith)
                requires 0 <= off < n, bs >= 0;
            assert(off * bs >= 0) by (nonlinear_arith)
                requires 0 <= off, bs >= 0;
            let cs = chunk_range.start as int;
            assert(bs > 0) by (nonlinear_arith)
                requires bs == self.granularity_view() * (i + 1), self.granularity_view() > 0, i >= 0;
            vstd::arithmetic::div_mod::lemma_mod_multiples_vanish(off, cs, bs);
            vstd::arithmetic::mul::lemma_mul_is_commutative(off, bs);
            assert((cs + off * bs) % bs == 0);
        }
        let block_offset = chunk_range.start + (b % self.blocks_per_chunk) as u64 * block_size;
        let ptr = match chunk.ptr() {
            Some(p) => Some(
                mapped_fitting_range(p, chunk.range(), block_offset..block_offset + block_size).expect(
                    "Block must be in sub-range of chunk",
                ),
            ),
            None => None,
        };
        DynamicBlock { range: block_offset..block_offset + block_size, memory: chunk.shared_memory(), index: b, ptr }
    }
}

} // verus!

verus! {

impl DynamicAllocator {
    /// Block `x` of size index `i` is the block of a chunk of a smaller size index.
    pub open spec fn holds_chunk_block(&self, i: int, x: u32) -> bool {
        exists|j: int, k: usize|
            0 <= j < self.classes() && self.chunk_class(j) == i && #[trigger] self.chunks_of(j).contains_key(k)
                && self.chunks_of(j)[k] is Dynamic && self.chunks_of(j)[k]->Dynamic_0.index_view() == x
    }

    /// Every other block of the chunk of block `x` of size index `i` is free.
    pub open spec fn rest_free(&self, i: int, x: u32) -> bool {
        forall|y: u32|
            self.chunk_index_of(y) == self.chunk_index_of(x) && y != x ==> #[trigger] self.free_of(i).contains(y)
    }

    /// `new` keeps the blocks handed out to users: the same user blocks, each still taken
    /// where it was.
    pub open spec fn keeps(&self, new: &Self) -> bool {
        &&& self.same_config(new)
        &&& new.user_count() == self.user_count()
        &&& forall|j: int| 0 <= j < self.classes() ==> #[trigger] new.user_of(j) == self.user_of(j)
        &&& forall|j: int, blk: DynamicBlock|
            0 <= j < self.classes() && self.user_of(j).contains(blk.index_view()) && #[trigger] self.taken(j, blk)
                ==> new.taken(j, blk)
    }

    /// `self` with the user block sets replaced by `u`.
    spec fn with_user(&self, u: Seq<Set<u32>>) -> Self {
        DynamicAllocator {
            memory_type: self.memory_type,
            memory_properties: self.memory_properties,
            blocks_per_chunk: self.blocks_per_chunk,
            block_size_granularity: self.block_size_granularity,
            non_coherent_atom_size: self.non_coherent_atom_size,
            sizes: self.sizes,
            user: Ghost(u),
            ledger: self.ledger,
        }
    }
}

/// The size index chunks of size index `j` take their blocks from is above `j`.
proof fn lemma_chunk_class_above(a: &DynamicAllocator, j: int)
    requires
        a.wf(),
        j >= 0,
    ensures
        a.chunk_class(j) > j,
{
    let n = a.per_chunk() as int;
    assert(n * (j + 1) - 1 > j) by (nonlinear_arith)
        requires n >= 2, j >= 0;
}

/// Different size indices take their chunks from different size indices.
proof fn lemma_chunk_class_injective(a: &DynamicAllocator, j1: int, j2: int)
    requires
        a.wf(),
        a.chunk_class(j1) == a.chunk_class(j2),
    ensures
        j1 == j2,
{
    let n = a.per_chunk() as int;
    assert(j1 == j2) by (nonlinear_arith)
        requires n * (j1 + 1) - 1 == n * (j2 + 1) - 1, n >= 2;
}

/// The ledger stays consistent when the chunks and the ledger are unchanged.
proof fn lemma_ledger_same(a: &DynamicAllocator, b: &DynamicAllocator)
    requires
        a.ledger_ok(),
        b.classes() == a.classes(),
        b.ledger_view() == a.ledger_view(),
        forall|j: int| 0 <= j < a.classes() ==> #[trigger] b.chunks_of(j) == a.chunks_of(j),
    ensures
        b.ledger_ok(),
{
    assert forall|ii: int, k: usize|
        #![trigger b.chunks_of(ii)[k]]
        0 <= ii < b.classes() && b.chunks_of(ii).contains_key(k) && b.chunks_of(ii)[k] is Dedicated implies exists|q: int|
        0 <= q < b.ledger_view().len() && #[trigger] b.ledger_view()[q] == (ii, k, b.chunks_of(ii)[k].memory_view()) by {
        assert(a.chunks_of(ii) == b.chunks_of(ii));
    }
    assert forall|q: int| 0 <= q < b.ledger_view().len() implies {
        let (ii, k, m) = #[trigger] b.ledger_view()[q];
        &&& 0 <= ii < b.classes()
        &&& b.chunks_of(ii).contains_key(k)
        &&& b.chunks_of(ii)[k] matches Chunk::Dedicated(mm, _) && mm == m
    } by {
        let ii = b.ledger_view()[q].0;
        assert(a.chunks_of(ii) == b.chunks_of(ii));
    }
}

/// Handing block `x` of size index `i` to a user keeps the allocator well-formed.
proof fn lemma_user_insert(a: &DynamicAllocator, i: int, x: u32)
    requires
        a.wf(),
        0 <= i < a.classes(),
        a.chunks_of(i).contains_key(a.chunk_index_of(x)),
        !a.free_of(i).contains(x),
        !a.holds_chunk_block(i, x),
    ensures
        a.with_user(a.user@.update(i, a.user@[i].insert(x))).wf(),
{
    let b = a.with_user(a.user@.update(i, a.user@[i].insert(x)));
    assert forall|j: int| 0 <= j < a.classes() implies #[trigger] b.chunks_of(j) == a.chunks_of(j) by {}
    lemma_ledger_same(a, &b);
    assert forall|j: int| 0 <= j < b.classes() implies #[trigger] b.class_ok(j) by {
        assert(a.class_ok(j));
        assert(b.chunks_of(j) == a.chunks_of(j));
        assert(b.free_of(j) == a.free_of(j));
        assert(b.chunk_count(j) == a.chunk_count(j));
        assert(b.slots_of(j) == a.slots_of(j));
        assert forall|y: u32| #[trigger] b.user_of(j).contains(y) implies b.chunks_of(j).contains_key(b.chunk_index_of(y))
            && !b.free_of(j).contains(y) by {
            if !(j == i && y == x) {
                assert(a.user_of(j).contains(y));
            }
        }
        assert forall|k: usize| #[trigger] b.chunks_of(j).contains_key(k) implies b.chunk_ok(j, b.chunks_of(j)[k]) by {
            let c = a.chunks_of(j)[k];
            assert(a.chunk_ok(j, c));
            if let Chunk::Dynamic(blk) = c {
                let jj = a.chunk_class(j);
                lemma_chunk_class_above(a, j);
                assert(b.chunks_of(jj) == a.chunks_of(jj));
                assert(b.free_of(jj) == a.free_of(jj));
                if jj == i && blk.index_view() == x {
                    assert(a.holds_chunk_block(i, x));
                }
                assert(b.taken(jj, blk));
            }
        }
    }
}

/// Taking block `x` of size index `i` back from a user keeps the allocator well-formed.
proof fn lemma_user_remove(a: &DynamicAllocator, i: int, x: u32)
    requires
        a.wf(),
        0 <= i < a.classes(),
    ensures
        a.with_user(a.user@.update(i, a.user@[i].remove(x))).wf(),
{
    let b = a.with_user(a.user@.update(i, a.user@[i].remove(x)));
    assert forall|j: int| 0 <= j < a.classes() implies #[trigger] b.chunks_of(j) == a.chunks_of(j) by {}
    lemma_ledger_same(a, &b);
    assert(b.user@ == a.user@.update(i, a.user@[i].remove(x)));
    assert(a.user_of(i) == a.user@[i]);
    assert forall|j: int| 0 <= j < b.classes() implies #[trigger] b.class_ok(j) by {
        assert(a.class_ok(j));
        assert(b.chunks_of(j) == a.chunks_of(j));
        assert(b.free_of(j) == a.free_of(j));
        assert(b.chunk_count(j) == a.chunk_count(j));
        assert(b.slots_of(j) == a.slots_of(j));
        assert forall|y: u32| #[trigger] b.user_of(j).contains(y) implies b.chunks_of(j).contains_key(b.chunk_index_of(y))
            && !b.free_of(j).contains(y) by {
            if !(j == i && y == x) {
                assert(a.user_of(j).contains(y));
            }
        }
        assert forall|k: usize| #[trigger] b.chunks_of(j).contains_key(k) implies b.chunk_ok(j, b.chunks_of(j)[k]) by {
            let c = a.chunks_of(j)[k];
            assert(a.chunk_ok(j, c));
            assert(b.chunk_size_of(j) == a.chunk_size_of(j));
            assert(b.max_block_size_view() == a.max_block_size_view());
            if let Chunk::Dynamic(blk) = c {
                let jj = a.chunk_class(j);
                assert(b.chunks_of(jj) == a.chunks_of(jj));
                assert(b.free_of(jj) == a.free_of(jj));
                assert(b.taken(jj, blk));
                lemma_chunk_class_above(a, j);
            }
            assert(b.chunks_of(j)[k] == c);
        }
    }
}

/// Making block `x` of size index `i` free, when neither a user nor a chunk holds it, keeps
/// the allocator well-formed and the user blocks.
proof fn lemma_free_insert(a: &DynamicAllocator, b: &DynamicAllocator, i: int, x: u32)
    requires
        a.wf(),
        0 <= i < a.classes(),
        same_except(a, b, i),
        b.chunks_of(i) == a.chunks_of(i),
        b.free_of(i) == a.free_of(i).insert(x),
        b.free_summary_ok(i),
        b.slots_of(i) == a.slots_of(i),
        b.chunk_count(i) == a.chunk_count(i),
        b.ledger_view() == a.ledger_view(),
        a.chunks_of(i).contains_key(a.chunk_index_of(x)),
        !a.user_of(i).contains(x),
        !a.holds_chunk_block(i, x),
    ensures
        b.wf(),
        a.keeps(b),
{
    assert forall|j: int| 0 <= j < b.classes() implies #[trigger] b.class_ok(j) by {
        assert(a.class_ok(j));
        assert(b.chunks_of(j) == a.chunks_of(j));
        assert forall|k: usize| #[trigger] b.chunks_of(j).contains_key(k) implies b.chunk_ok(j, b.chunks_of(j)[k]) by {
            let c = a.chunks_of(j)[k];
            assert(a.chunk_ok(j, c));
            if let Chunk::Dynamic(blk) = c {
                let jj = a.chunk_class(j);
                lemma_chunk_class_above(a, j);
                if jj == i && blk.index_view() == x {
                    assert(a.holds_chunk_block(i, x));
                }
                assert(b.chunks_of(jj) == a.chunks_of(jj));
                assert(b.user_of(jj) == a.user_of(jj));
                assert(b.taken(jj, blk));
            }
        }
    }
    assert forall|ii: int, k: usize|
        #![trigger b.chunks_of(ii)[k]]
        0 <= ii < b.classes() && b.chunks_of(ii).contains_key(k) && b.chunks_of(ii)[k] is Dedicated implies exists|q: int|
        0 <= q < b.ledger_view().len() && #[trigger] b.ledger_view()[q] == (ii, k, b.chunks_of(ii)[k].memory_view()) by {
        assert(a.chunks_of(ii) == b.chunks_of(ii));
    }
    assert forall|q: int| 0 <= q < b.ledger_view().len() implies {
        let (ii, k, m) = #[trigger] b.ledger_view()[q];
        &&& 0 <= ii < b.classes()
        &&& b.chunks_of(ii).contains_key(k)
        &&& b.chunks_of(ii)[k] matches Chunk::Dedicated(mm, _) && mm == m
    } by {
        let ii = b.ledger_view()[q].0;
        assert(a.chunks_of(ii) == b.chunks_of(ii));
    }
    assert forall|j: int, blk: DynamicBlock|
        0 <= j < a.classes() && a.user_of(j).contains(blk.index_view()) && #[trigger] a.taken(j, blk) implies b.taken(
        j,
        blk,
    ) by {
        assert(b.chunks_of(j) == a.chunks_of(j));
    }
}

} // verus!

verus! {

/// The ledger's total is never negative.
pub proof fn lemma_ledger_bytes_nonneg(s: Seq<(int, usize, Memory)>)
    ensures
        ledger_bytes(s) >= 0,
    decreases s.len(),
{
    if s.len() > 0 {
        lemma_ledger_bytes_nonneg(s.drop_last());
    }
}

/// Removing an entry of the ledger takes its memory object's size off the total.
proof fn lemma_ledger_bytes_remove(s: Seq<(int, usize, Memory)>, q: int)
    requires
        0 <= q < s.len(),
    ensures
        ledger_bytes(s.remove(q)) == ledger_bytes(s) - s[q].2.size,
    decreases s.len(),
{
    if q == s.len() - 1 {
        assert(s.remove(q) =~= s.drop_last());
    } else {
        lemma_ledger_bytes_remove(s.drop_last(), q);
        assert(s.remove(q).drop_last() =~= s.drop_last().remove(q));
        assert(s.remove(q).last() == s.last());
    }
}

/// Dropping chunk `ci` of size index `i`, all of whose blocks are free, together with its
/// blocks and its ledger entry, keeps the allocator well-formed and the user blocks.
#[verifier::spinoff_prover]
#[verifier::rlimit(40)]
proof fn lemma_remove_chunk(a: &DynamicAllocator, b: &DynamicAllocator, i: int, ci: usize, q: int)
    requires
        a.wf(),
        0 <= i < a.classes(),
        same_except(a, b, i),
        a.chunks_of(i).contains_key(ci),
        forall|y: u32| a.chunk_index_of(y) == ci ==> #[trigger] a.free_of(i).contains(y),
        b.chunks_of(i) == a.chunks_of(i).remove(ci),
        b.free_of(i) == a.free_of(i).filter(|y: u32| a.chunk_index_of(y) != ci),
        b.free_summary_ok(i),
        b.slots_of(i) == a.slots_of(i),
        b.chunk_count(i) == a.chunk_count(i) - 1,
        match a.chunks_of(i)[ci] {
            Chunk::Dedicated(m, _) => 0 <= q < a.ledger_view().len() && a.ledger_view()[q] == (i, ci, m)
                && b.ledger_view() == a.ledger_view().remove(q),
            Chunk::Dynamic(_) => b.ledger_view() == a.ledger_view(),
        },
    ensures
        b.wf(),
        a.keeps(b),
        match a.chunks_of(i)[ci] {
            Chunk::Dedicated(m, _) => b.held() == a.held() - m.size,
            Chunk::Dynamic(blk) => {
                let j = a.chunk_class(i);
                let x = blk.index_view();
                &&& b.held() == a.held()
                &&& i < j < a.classes()
                &&& b.chunks_of(j).contains_key(b.chunk_index_of(x))
                &&& !b.free_of(j).contains(x)
                &&& !b.user_of(j).contains(x)
                &&& !b.holds_chunk_block(j, x)
                &&& blk.range_view().start <= blk.range_view().end
                &&& blk.range_view().end - blk.range_view().start == a.chunk_size_of(i)
                &&& a.chunk_size_of(i) <= a.max_block_size_view()
            },
        },
{
    let chunk = a.chunks_of(i)[ci];
    assert(a.class_ok(i));
    assert(a.chunk_ok(i, chunk));
    // Blocks of chunk `ci` are all free, so no user and no chunk holds one of them.
    assert forall|y: u32| #[trigger] a.user_of(i).contains(y) implies a.chunk_index_of(y) != ci by {
        if a.chunk_index_of(y) == ci {
            assert(a.free_of(i).contains(y));
        }
    }
    assert(b.chunks_of(i).dom() =~= a.chunks_of(i).dom().remove(ci));
    assert forall|j: int| 0 <= j < b.classes() implies #[trigger] b.class_ok(j) by {
        assert(a.class_ok(j));
        assert forall|k: usize| #[trigger] b.chunks_of(j).contains_key(k) implies b.chunk_ok(j, b.chunks_of(j)[k]) by {
            assert(a.chunks_of(j).contains_key(k));
            let c = a.chunks_of(j)[k];
            assert(b.chunks_of(j)[k] == c);
            assert(a.chunk_ok(j, c));
            if let Chunk::Dynamic(blk) = c {
                let jj = a.chunk_class(j);
                lemma_chunk_class_above(a, j);
                assert(b.user_of(jj) == a.user_of(jj));
                if jj == i {
                    let y = blk.index_view();
                    if a.chunk_index_of(y) == ci {
                        assert(a.free_of(i).contains(y));
                    }
                    assert(b.taken(jj, blk));
                } else {
                    assert(b.chunks_of(jj) == a.chunks_of(jj));
                    assert(b.free_of(jj) == a.free_of(jj));
                    assert(b.taken(jj, blk));
                }
            }
        }
        if j == i {
            assert(b.chunks_of(i).len() == a.chunks_of(i).len() - 1);
            assert forall|y: u32| #[trigger] b.free_of(i).contains(y) implies b.chunks_of(i).contains_key(b.chunk_index_of(y)) by {
                assert(a.free_of(i).contains(y));
            }
            assert forall|y: u32| #[trigger] b.user_of(i).contains(y) implies b.chunks_of(i).contains_key(b.chunk_index_of(y))
                && !b.free_of(i).contains(y) by {
                assert(a.user_of(i).contains(y));
            }
        }
    }
    let la = a.ledger_view();
    let lb = b.ledger_view();
    match chunk {
        Chunk::Dedicated(m, _) => {
            lemma_ledger_bytes_remove(la, q);
            assert forall|p: int| 0 <= p < lb.len() implies {
                let (ii, k, mm) = #[trigger] lb[p];
                &&& 0 <= ii < b.classes()
                &&& b.chunks_of(ii).contains_key(k)
                &&& b.chunks_of(ii)[k] matches Chunk::Dedicated(m2, _) && m2 == mm
            } by {
                let p2 = if p < q { p } else { p + 1 };
                assert(lb[p] == la[p2]);
                assert(la[p2] == la[p2]);
                assert((la[p2].0, la[p2].1) != (la[q].0, la[q].1));
            }
            assert forall|p1: int, p2: int|
                #![trigger lb[p1], lb[p2]]
                0 <= p1 < lb.len() && 0 <= p2 < lb.len() && p1 != p2 implies (lb[p1].0, lb[p1].1) != (lb[p2].0, lb[p2].1) by {
                let r1 = if p1 < q { p1 } else { p1 + 1 };
                let r2 = if p2 < q { p2 } else { p2 + 1 };
                assert(lb[p1] == la[r1] && lb[p2] == la[r2]);
            }
            assert forall|ii: int, k: usize|
                #![trigger b.chunks_of(ii)[k]]
                0 <= ii < b.classes() && b.chunks_of(ii).contains_key(k) && b.chunks_of(ii)[k] is Dedicated implies exists|p: int|
                0 <= p < lb.len() && #[trigger] lb[p] == (ii, k, b.chunks_of(ii)[k].memory_view()) by {
                assert(a.chunks_of(ii).contains_key(k));
                assert(a.chunks_of(ii)[k] == b.chunks_of(ii)[k]);
                let p = choose|p: int| 0 <= p < la.len() && #[trigger] la[p] == (ii, k, a.chunks_of(ii)[k].memory_view());
                assert(p != q);
                let p2 = if p < q { p } else { p - 1 };
                assert(lb[p2] == la[p]);
            }
        },
        Chunk::Dynamic(blk) => {
            assert forall|p: int| 0 <= p < lb.len() implies {
                let (ii, k, mm) = #[trigger] lb[p];
                &&& 0 <= ii < b.classes()
                &&& b.chunks_of(ii).contains_key(k)
                &&& b.chunks_of(ii)[k] matches Chunk::Dedicated(m2, _) && m2 == mm
            } by {
                assert(lb[p] == la[p]);
            }
            assert forall|ii: int, k: usize|
                #![trigger b.chunks_of(ii)[k]]
                0 <= ii < b.classes() && b.chunks_of(ii).contains_key(k) && b.chunks_of(ii)[k] is Dedicated implies exists|p: int|
                0 <= p < lb.len() && #[trigger] lb[p] == (ii, k, b.chunks_of(ii)[k].memory_view()) by {
                assert(a.chunks_of(ii).contains_key(k));
                assert(a.chunks_of(ii)[k] == b.chunks_of(ii)[k]);
            }
            let j = a.chunk_class(i);
            let x = blk.index_view();
            lemma_chunk_class_above(a, i);
            assert(b.chunks_of(j) == a.chunks_of(j));
            assert(b.free_of(j) == a.free_of(j));
            assert(b.user_of(j) == a.user_of(j));
            if b.holds_chunk_block(j, x) {
                let (j2, k2) = choose|j2: int, k2: usize|
                    0 <= j2 < b.classes() && b.chunk_class(j2) == j && #[trigger] b.chunks_of(j2).contains_key(k2)
                        && b.chunks_of(j2)[k2] is Dynamic && b.chunks_of(j2)[k2]->Dynamic_0.index_view() == x;
                lemma_chunk_class_injective(a, j2, i);
                assert(a.chunks_of(i).contains_key(k2));
                assert(a.chunks_of(i)[k2] == b.chunks_of(i)[k2]);
                assert(k2 != ci);
                assert(false);
            }
        },
    }
    assert forall|j: int, blk: DynamicBlock|
        0 <= j < a.classes() && a.user_of(j).contains(blk.index_view()) && #[trigger] a.taken(j, blk) implies b.taken(
        j,
        blk,
    ) by {
        if j == i {
            assert(a.chunk_index_of(blk.index_view()) != ci);
        } else {
            assert(b.chunks_of(j) == a.chunks_of(j));
            assert(b.free_of(j) == a.free_of(j));
        }
    }
}

} // verus!

verus! {

/// Whether all the indices of `range`, one bottom-layer word of the set, are in the set.
fn check_bit_range_set(bitset: &hibitset::BitSet, range: Range<u32>) -> (r: bool)
    requires
        range.start % usize::BITS == 0,
        range.end == range.start + usize::BITS,
    ensures
        r == forall|b: u32| range.start <= b < range.end ==> #[trigger] bitset_contents(*bitset).contains(b),
{
    let layer_size = usize::BITS;
    let word_index = range.start / layer_size;
    proof {
        vstd::arithmetic::div_mod::lemma_fundamental_div_mod(range.start as int, layer_size as int);
        assert(word_index * layer_size == range.start);
        assert((word_index + 1) * layer_size == range.end) by (nonlinear_arith)
            requires word_index * layer_size == range.start, range.end == range.start + layer_size;
    }
    let word = bitset_layer0(bitset, word_index as usize);
    let r = word == !0usize;
    proof {
        let s = bitset_contents(*bitset);
        if r {
            assert forall|b: u32| range.start <= b < range.end implies #[trigger] s.contains(b) by {
                let o = b - range.start;
                assert(bit_index(word_index as int, o) == b);
                assert(s.contains(bit_index(word_index as int, o)));
            }
        } else {
            let o = choose|o: int| 0 <= o < usize::BITS && !#[trigger] s.contains(bit_index(word_index as int, o));
            let b = bit_index(word_index as int, o);
            assert(range.start <= b < range.end);
        }
    }
    r
}

impl DynamicAllocator {
    /// Return block `x` of size index `i`, which neither a user nor a chunk holds, to the free
    /// blocks. When all the blocks of its chunk are then free, the chunk is dropped and its
    /// memory released; the device memory given back is returned.
    #[verifier::spinoff_prover]
    #[verifier::rlimit(40)]
    fn release<D: Device>(&mut self, device: &D, i: usize, x: u32) -> (r: u64)
        requires
            old(self).wf(),
            i < old(self).classes(),
            old(self).chunks_of(i as int).contains_key(old(self).chunk_index_of(x)),
            !old(self).free_of(i as int).contains(x),
            !old(self).user_of(i as int).contains(x),
            !old(self).holds_chunk_block(i as int, x),
        ensures
            final(self).wf(),
            old(self).keeps(final(self)),
            final(self).held() == old(self).held() - r,
            unchanged_below(old(self), final(self), i as int),
            old(self).rest_free(i as int, x) ==> final(self).chunks_of(i as int) == old(self).chunks_of(
                i as int,
            ).remove(old(self).chunk_index_of(x)),
            !old(self).rest_free(i as int, x) ==> {
                &&& r == 0
                &&& final(self).chunks_of(i as int) == old(self).chunks_of(i as int)
                &&& final(self).free_of(i as int) == old(self).free_of(i as int).insert(x)
            },
            ledger_released(device, old(self).ledger_view(), final(self).ledger_view()),
        decreases old(self).classes() - i, 1int,
    {
        let ghost s0 = *self;
        let n = self.blocks_per_chunk;
        proof {
            assert(s0.class_ok(i as int));
            lemma_max_chunks();
            let ci = (x as int / n as int);
            vstd::arithmetic::div_mod::lemma_fundamental_div_mod(x as int, n as int);
            assert(x < (ci + 1) * n) by (nonlinear_arith)
                requires x == n * ci + (x as int % n as int), (x as int % n as int) < n;
            assert((ci + 1) * n <= max_chunks() * n) by (nonlinear_arith)
                requires ci + 1 <= max_chunks(), n >= 0;
        }
        bitset_add(&mut self.sizes[i].blocks, x);
        proof {
            assert(same_except(&s0, self, i as int));
            lemma_free_insert(&s0, self, i as int, x);
        }
        let chunk_index = x / n;
        let chunk_start = chunk_index * n;
        let chunk_end = chunk_start + n;
        proof {
            vstd::arithmetic::div_mod::lemma_fundamental_div_mod(x as int, n as int);
            assert(chunk_start % n == 0) by {
                vstd::arithmetic::div_mod::lemma_mod_multiples_basic(chunk_index as int, n as int);
            }
        }
        if check_bit_range_set(&self.sizes[i].blocks, chunk_start..chunk_end) {
            let ghost s1 = *self;
            proof {
                assert forall|y: u32| s1.chunk_index_of(y) == chunk_index as usize implies #[trigger] s1.free_of(
                    i as int,
                ).contains(y) by {
                    vstd::arithmetic::div_mod::lemma_fundamental_div_mod(y as int, n as int);
                    assert(chunk_start <= y < chunk_end) by (nonlinear_arith)
                        requires
                            y == n * ((y as int / n as int)) + (y as int % n as int),
                            0 <= (y as int % n as int) < n,
                            (y as int / n as int) == chunk_index,
                            chunk_start == chunk_index * n,
                            chunk_end == chunk_start + n;
                }
            }
            let mut index = chunk_start;
            while index < chunk_end
                invariant
                    chunk_start <= index <= chunk_end,
                    i < self.sizes@.len(),
                    self.sizes@.len() == s1.sizes@.len(),
                    forall|j: int| 0 <= j < self.sizes@.len() && j != i ==> self.sizes@[j] == s1.sizes@[j],
                    self.sizes@[i as int].chunks == s1.sizes@[i as int].chunks,
                    self.sizes@[i as int].total_chunks == s1.sizes@[i as int].total_chunks,
                    self.memory_type == s1.memory_type,
                    self.memory_properties == s1.memory_properties,
                    self.blocks_per_chunk == s1.blocks_per_chunk,
                    self.block_size_granularity == s1.block_size_granularity,
                    self.non_coherent_atom_size == s1.non_coherent_atom_size,
                    self.user == s1.user,
                    self.ledger == s1.ledger,
                    bitset_contents(self.sizes@[i as int].blocks) == s1.free_of(i as int).filter(
                        |y: u32| !(chunk_start <= y < index),
                    ),
                    bitset_summary_ok(self.sizes@[i as int].blocks),
                    chunk_end <= bitset_max_index(),
                decreases chunk_end - index,
            {
                bitset_remove(&mut self.sizes[i].blocks, index);
                index = index + 1;
                proof {
                    assert(bitset_contents(self.sizes@[i as int].blocks) =~= s1.free_of(i as int).filter(
                        |y: u32| !(chunk_start <= y < index),
                    ));
                }
            }
            proof {
                assert(s1.class_ok(i as int));
            }
            let chunk = match chunk_list_pop(&mut self.sizes[i].chunks, chunk_index as usize) {
                Some(c) => c,
                None => {
                    proof {
                        assert(false);
                    }
                    return 0;
                },
            };
            self.sizes[i].total_chunks = self.sizes[i].total_chunks - 1;
            let ghost q: int = 0;
            proof {
                assert(s1.chunks_of(i as int).len() >= 1);
                assert forall|j: int| 0 <= j < s1.classes() && j != i implies {
                    &&& #[trigger] self.chunks_of(j) == s1.chunks_of(j)
                    &&& self.free_of(j) == s1.free_of(j)
                    &&& self.slots_of(j) == s1.slots_of(j)
                    &&& self.chunk_count(j) == s1.chunk_count(j)
                } by {
                    assert(self.sizes@[j] == s1.sizes@[j]);
                }
                assert(self.free_of(i as int) =~= s1.free_of(i as int).filter(
                    |y: u32| s1.chunk_index_of(y) != chunk_index as usize,
                )) by {
                    assert forall|y: u32| s1.free_of(i as int).contains(y) implies (!(chunk_start <= y < chunk_end)
                        <==> s1.chunk_index_of(y) != chunk_index as usize) by {
                        vstd::arithmetic::div_mod::lemma_fundamental_div_mod(y as int, n as int);
                        if chunk_start <= y < chunk_end {
                            lemma_div_in_chunk(y, chunk_index, n);
                        } else {
                            if s1.chunk_index_of(y) == chunk_index as usize {
                                assert(chunk_start <= y < chunk_end) by (nonlinear_arith)
                                    requires
                                        y == n * ((y as int / n as int)) + (y as int % n as int),
                                        0 <= (y as int % n as int) < n,
                                        (y as int / n as int) == chunk_index,
                                        chunk_start == chunk_index * n,
                                        chunk_end == chunk_start + n;
                            }
                        }
                    }
                }
                if let Chunk::Dedicated(m, _) = chunk {
                    assert(s1.ledger_ok());
                    let p = choose|p: int|
                        0 <= p < s1.ledger_view().len() && #[trigger] s1.ledger_view()[p] == (
                            i as int,
                            chunk_index as usize,
                            s1.chunks_of(i as int)[chunk_index as usize].memory_view(),
                        );
                    q = p;
                    self.ledger@ = self.ledger@.remove(q);
                }
                lemma_remove_chunk(&s1, self, i as int, chunk_index as usize, q);
            }
            let ghost s2 = *self;
            let ghost gchunk = chunk;
            let freed = self.free_chunk(device, i, chunk);
            proof {
                assert(s0.ledger_view() == s1.ledger_view());
                match gchunk {
                    Chunk::Dedicated(m, _) => {
                        assert(s1.chunk_ok(i as int, gchunk));
                        let l1 = s1.ledger_view();
                        let l2 = s2.ledger_view();
                        assert(l2 == l1.remove(q));
                        assert forall|p: int| 0 <= p < l1.len() && !l2.contains(#[trigger] l1[p]) implies device.frees(
                            l1[p].2.raw,
                        ) && (l1[p].2.properties.cpu_visible ==> device.unmaps(l1[p].2.raw)) by {
                            if p < q {
                                assert(l2[p] == l1[p]);
                            } else if p > q {
                                assert(l2[p - 1] == l1[p]);
                            }
                        }
                    },
                    Chunk::Dynamic(_) => {
                        lemma_ledger_released_same(device, s1.ledger_view());
                    },
                }
                lemma_ledger_released_trans(device, s1.ledger_view(), s2.ledger_view(), self.ledger_view());
                lemma_keeps_trans(&s0, &s1, self);
                assert(s0.rest_free(i as int, x)) by {
                    assert forall|y: u32| s0.chunk_index_of(y) == s0.chunk_index_of(x) && y != x implies #[trigger] s0.free_of(
                        i as int,
                    ).contains(y) by {
                        assert(s1.free_of(i as int).contains(y));
                    }
                }
                assert(self.chunks_of(i as int) == s2.chunks_of(i as int));
                lemma_unchanged_below_chain(&s0, &s1, &s2, self, i as int);
            }
            freed
        } else {
            proof {
                let ci = s0.chunk_index_of(x);
                assert(!s0.rest_free(i as int, x)) by {
                    let s = self.free_of(i as int);
                    let b = choose|b: u32| chunk_start <= b < chunk_end && !#[trigger] s.contains(b);
                    lemma_div_in_chunk(b, chunk_index, n);
                    assert(b != x);
                    assert(s0.chunk_index_of(b) == ci);
                    assert(!s0.free_of(i as int).contains(b));
                }
                assert(unchanged_below(&s0, self, i as int));
                assert(s0.ledger_view() == self.ledger_view());
                lemma_ledger_released_same(device, s0.ledger_view());
            }
            0
        }
    }

    /// Give back the memory of a chunk dropped from size index `i`: a memory object of its
    /// own is unmapped and freed, a block of a larger size is released.
    #[verifier::spinoff_prover]
    #[verifier::rlimit(30)]
    fn free_chunk<D: Device>(&mut self, device: &D, i: usize, chunk: Chunk) -> (r: u64)
        requires
            old(self).wf(),
            i < old(self).classes(),
            match chunk {
                Chunk::Dedicated(_, _) => true,
                Chunk::Dynamic(blk) => {
                    let j = old(self).chunk_class(i as int);
                    let x = blk.index_view();
                    &&& i < j < old(self).classes()
                    &&& old(self).chunks_of(j).contains_key(old(self).chunk_index_of(x))
                    &&& !old(self).free_of(j).contains(x)
                    &&& !old(self).user_of(j).contains(x)
                    &&& !old(self).holds_chunk_block(j, x)
                    &&& blk.range_view().start <= blk.range_view().end
                    &&& blk.range_view().end - blk.range_view().start == old(self).chunk_size_of(i as int)
                    &&& old(self).chunk_size_of(i as int) <= old(self).max_block_size_view()
                },
            },
        ensures
            final(self).wf(),
            old(self).keeps(final(self)),
            match chunk {
                Chunk::Dedicated(m, _) => {
                    &&& r == m.size
                    &&& *final(self) == *old(self)
                    &&& device.frees(m.raw)
                    &&& m.properties == old(self).memory_properties_view() && m.properties.cpu_visible ==> device.unmaps(
                        m.raw,
                    )
                },
                Chunk::Dynamic(_) => final(self).held() == old(self).held() - r,
            },
            unchanged_below(old(self), final(self), i + 1),
            ledger_released(device, old(self).ledger_view(), final(self).ledger_view()),
        decreases old(self).classes() - i, 0int,
    {
        match chunk {
            Chunk::Dedicated(memory, _) => {
                let size = memory.size();
                if self.memory_properties.contains(Properties::cpu_visible_only()) {
                    device.unmap(memory.raw());
                }
                device.free(memory.into_raw());
                proof {
                    assert(*self == *old(self));
                    assert(unchanged_below(old(self), self, i + 1));
                    lemma_ledger_released_same(device, self.ledger_view());
                }
                size
            },
            Chunk::Dynamic(block) => {
                proof {
                    let g = self.block_size_granularity as int;
                    let n = self.blocks_per_chunk as int;
                    let k = (i + 1) * n;
                    assert(k >= 1) by (nonlinear_arith)
                        requires k == (i + 1) * n, n >= 2, i >= 0;
                    lemma_size_index_of_multiple(g, k);
                    assert(self.chunk_size_of(i as int) == g * k) by (nonlinear_arith)
                        requires self.chunk_size_of(i as int) == g * (i + 1) * n, k == (i + 1) * n;
                    assert(self.chunk_class(i as int) == k - 1) by (nonlinear_arith)
                        requires self.chunk_class(i as int) == n * (i + 1) - 1, k == (i + 1) * n;
                    assert(self.chunk_size_of(i as int) > 0) by (nonlinear_arith)
                        requires self.chunk_size_of(i as int) == g * k, g > 0, k > 0;
                }
                let j = self.size_index(block.size());
                let ghost s0 = *self;
                let r = self.release(device, j, block.index);
                proof {
                    assert(j as int >= i + 1);
                    lemma_unchanged_below_shrink(&s0, self, j as int, i + 1);
                }
                r
            },
        }
    }
}

/// Indices below a bound stay as they were when indices below a larger bound do.
proof fn lemma_unchanged_below_shrink(a: &DynamicAllocator, b: &DynamicAllocator, hi: int, lo: int)
    requires
        unchanged_below(a, b, hi),
        lo <= hi,
    ensures
        unchanged_below(a, b, lo),
{
    assert forall|j: int| 0 <= j < lo && j < a.classes() implies {
        &&& #[trigger] b.chunks_of(j) == a.chunks_of(j)
        &&& b.free_of(j) == a.free_of(j)
        &&& b.slots_of(j) == a.slots_of(j)
        &&& b.chunk_count(j) == a.chunk_count(j)
    } by {
        assert(b.chunks_of(j) == a.chunks_of(j));
    }
}

/// Changes confined to size index `i` and then to indices from `i` up leave the indices
/// below `i` as they were.
proof fn lemma_unchanged_below_chain(
    s0: &DynamicAllocator,
    s1: &DynamicAllocator,
    s2: &DynamicAllocator,
    s3: &DynamicAllocator,
    i: int,
)
    requires
        same_except(s0, s1, i),
        forall|j: int|
            0 <= j < s1.classes() && j != i ==> {
                &&& #[trigger] s2.chunks_of(j) == s1.chunks_of(j)
                &&& s2.free_of(j) == s1.free_of(j)
                &&& s2.slots_of(j) == s1.slots_of(j)
                &&& s2.chunk_count(j) == s1.chunk_count(j)
            },
        unchanged_below(s2, s3, i + 1),
        s2.classes() == s0.classes(),
    ensures
        unchanged_below(s0, s3, i),
{
    assert forall|jj: int| 0 <= jj < i && jj < s0.classes() implies {
        &&& #[trigger] s3.chunks_of(jj) == s0.chunks_of(jj)
        &&& s3.free_of(jj) == s0.free_of(jj)
        &&& s3.slots_of(jj) == s0.slots_of(jj)
        &&& s3.chunk_count(jj) == s0.chunk_count(jj)
    } by {
        assert(s1.chunks_of(jj) == s0.chunks_of(jj));
        assert(s2.chunks_of(jj) == s1.chunks_of(jj));
        assert(s3.chunks_of(jj) == s2.chunks_of(jj));
    }
}

/// Keeping user blocks is transitive.
proof fn lemma_keeps_trans(a: &DynamicAllocator, b: &DynamicAllocator, c: &DynamicAllocator)
    requires
        a.keeps(b),
        b.keeps(c),
    ensures
        a.keeps(c),
{
    assert forall|j: int, blk: DynamicBlock|
        0 <= j < a.classes() && a.user_of(j).contains(blk.index_view()) && #[trigger] a.taken(j, blk) implies c.taken(
        j,
        blk,
    ) by {
        assert(b.user_of(j) == a.user_of(j));
        assert(b.taken(j, blk));
    }
    assert forall|j: int| 0 <= j < a.classes() implies #[trigger] c.user_of(j) == a.user_of(j) by {
        assert(b.user_of(j) == a.user_of(j));
    }
}

} // verus!

verus! {

impl DynamicAllocator {
    /// Size a request of `size` bytes aligned to `align` is served with: `max(size, align)`,
    /// rounded up to a multiple of `align` when `align` is a power of two and the rounded
    /// size can still be served.
    pub open spec fn request_size(&self, size: u64, align: u64) -> int {
        let m = max_u64(size, align);
        if is_pow2(align) && aligned_spec(m, align) <= self.max_block_size_view() {
            aligned_spec(m, align)
        } else {
            m as int
        }
    }

    /// Allocate a block of at least `size` bytes aligned to `align`: requests are served
    /// by blocks whose size is the smallest multiple of the granularity not below the
    /// request size. Each block starts at a multiple of its size, so a block whose size is a
    /// multiple of `align` is aligned. Returns the block and the device memory newly
    /// allocated for it.
    pub fn alloc_block<D: Device>(&mut self, device: &D, size: u64, align: u64) -> (r: Result<
        (DynamicBlock, u64),
        MemoryError,
    >)
        requires
            old(self).wf(),
            0 < max_u64(size, align) <= old(self).max_block_size_view(),
        ensures
            final(self).wf(),
            final(self).same_config(old(self)),
            forall|b: DynamicBlock| old(self).is_live(&b) ==> final(self).is_live(&b),
            match r {
                Ok((block, allocated)) => {
                    let i = old(self).size_index_of(old(self).request_size(size, align));
                    &&& final(self).is_live(&block)
                    &&& !old(self).is_live(&block)
                    &&& block.wf()
                    &&& block.size_view() == old(self).block_size_of(i)
                    &&& block.range_view().start as int % old(self).block_size_of(i) == 0
                    &&& is_pow2(align) && old(self).block_size_of(i) % (align as int) == 0 ==> block.range_view().start
                        % align == 0
                    &&& block.memory_view().properties == old(self).memory_properties_view()
                    &&& final(self).held() == old(self).held() + allocated
                    &&& allocated <= old(self).max_block_size_view() * old(self).per_chunk()
                    &&& old(self).free_of(i) != Set::<u32>::empty() ==> {
                        &&& old(self).reuses(i, block.index_view())
                        &&& allocated == 0
                        &&& final(self).free_of(i) == old(self).free_of(i).remove(block.index_view())
                        &&& final(self).chunks_of(i) == old(self).chunks_of(i)
                    }
                },
                Err(_) => *final(self) == *old(self) && old(self).free_of(
                    old(self).size_index_of(old(self).request_size(size, align)),
                ) == Set::<u32>::empty(),
            },
            ledger_granted(device, old(self).memory_type_view(), old(self).ledger_view(), final(self).ledger_view()),
    {
        let ghost s0 = *self;
        let m = if size < align {
            align
        } else {
            size
        };
        let request = if align > 0 && align & (align - 1) == 0 {
            proof {
                let g = s0.granularity_view() as int;
                let mx = s0.max_block_size_view();
                let n = s0.per_chunk() as int;
                assert(mx * n <= u64::MAX);
                assert(n >= 32);
                assert(m * 32 <= u64::MAX) by (nonlinear_arith)
                    requires m <= mx, mx * n <= u64::MAX, n >= 32, mx >= 0;
                let a = align;
                assert(((m - 1) as u64 | (a - 1) as u64) <= (m - 1) + (a - 1)) by (bit_vector)
                    requires 0 < a <= m, m <= 0x07ff_ffff_ffff_ffffu64;
                lemma_aligned_spec(m, align);
            }
            let rounded = aligned(m, align);
            if rounded <= self.max_allocation() {
                rounded
            } else {
                m
            }
        } else {
            m
        };
        proof {
            assert(request as int == s0.request_size(size, align));
            assert(0 < request <= s0.max_block_size_view());
        }
        let i = self.size_index(request);
        let (block, allocated) = match self.alloc_from_chunk(device, request) {
            Ok(x) => x,
            Err(e) => return Err(e),
        };
        let ghost s1 = *self;
        proof {
            let g = s0.granularity_view() as int;
            let j = s0.size_index_of(request as int);
            lemma_size_index_of_multiple(g, j + 1);
            assert(i == j);
            let x = block.index_view();
            lemma_chunk_class_above(&s0, 0);
            if s1.holds_chunk_block(j, x) {
                let (j2, k2) = choose|j2: int, k2: usize|
                    0 <= j2 < s1.classes() && s1.chunk_class(j2) == j && #[trigger] s1.chunks_of(j2).contains_key(k2)
                        && s1.chunks_of(j2)[k2] is Dynamic && s1.chunks_of(j2)[k2]->Dynamic_0.index_view() == x;
                lemma_chunk_class_above(&s0, j2);
                assert(s1.chunks_of(j2) == s0.chunks_of(j2));
                assert(s0.class_ok(j2));
                assert(s0.chunk_ok(j2, s0.chunks_of(j2)[k2]));
                assert(false);
            }
            lemma_user_insert(&s1, j, x);
            self.user@ = self.user@.update(j, self.user@[j].insert(x));
            assert(*self == s1.with_user(s1.user@.update(j, s1.user@[j].insert(x))));
            assert forall|b: DynamicBlock| s0.is_live(&b) implies self.is_live(&b) by {
                let jb = s0.class_of(&b);
                lemma_grows_taken(&s0, &s1, jb, b);
                assert(s1.user_of(jb) == s0.user_of(jb));
            }
            if s0.is_live(&block) {
                assert(s0.user_of(j).contains(x));
                assert(s0.class_ok(j));
            }
        }
        proof {
            let bs = s0.block_size_of(s0.size_index_of(request as int));
            let a = align as int;
            let st = block.range_view().start as int;
            if is_pow2(align) && bs % a == 0 {
                lemma_aligned_multiple(st, bs, a);
            }
        }
        Ok((block, allocated))
    }

    /// `after` is this allocator once `block` was freed, which returned `r` bytes: the block
    /// is no longer handed out; when the other blocks of its chunk are all free the chunk
    /// leaves its size, else the block becomes free and nothing is returned. Memory objects
    /// that leave the ledger are handed back to `device`.
    pub open spec fn releases<D: Device>(&self, after: &Self, block: &DynamicBlock, r: u64, device: &D) -> bool {
        let i = self.class_of(block);
        let x = block.index_view();
        &&& after.held() == self.held() - r
        &&& ledger_released(device, self.ledger_view(), after.ledger_view())
        &&& !after.is_live(block)
        &&& after.user_of(i) == self.user_of(i).remove(x)
        &&& self.rest_free(i, x) ==> after.chunks_of(i) == self.chunks_of(i).remove(self.chunk_index_of(x))
        &&& !self.rest_free(i, x) ==> {
            &&& r == 0
            &&& after.chunks_of(i) == self.chunks_of(i)
            &&& after.free_of(i) == self.free_of(i).insert(x)
        }
    }

    /// Free a block: it goes back to the free blocks of its size, and when its whole chunk
    /// is then free, the chunk's memory is released. Returns the device memory released.
    #[verifier::spinoff_prover]
    pub fn free<D: Device>(&mut self, device: &D, block: DynamicBlock) -> (r: u64)
        requires
            old(self).wf(),
            old(self).is_live(&block),
        ensures
            final(self).wf(),
            final(self).same_config(old(self)),
            old(self).releases(&*final(self), &block, r, device),
            forall|b: DynamicBlock|
                old(self).is_live(&b) && !(old(self).class_of(&b) == old(self).class_of(&block) && b.index_view()
                    == block.index_view()) ==> final(self).is_live(&b),
    {
        let ghost s0 = *self;
        proof {
            let g = s0.granularity_view() as int;
            let j = s0.class_of(&block);
            let m = s0.classes() as int;
            assert(g * (j + 1) <= g * m) by (nonlinear_arith)
                requires j + 1 <= m, g > 0;
            assert(g * (j + 1) > 0) by (nonlinear_arith)
                requires j >= 0, g > 0;
        }
        let i = self.size_index(block.size());
        let x = block.index;
        proof {
            let g = s0.granularity_view() as int;
            lemma_size_index_of_multiple(g, i + 1);
            lemma_user_remove(&s0, i as int, x);
            self.user@ = self.user@.update(i as int, self.user@[i as int].remove(x));
            assert(*self == s0.with_user(s0.user@.update(i as int, s0.user@[i as int].remove(x))));
            assert(s0.class_ok(i as int));
            if self.holds_chunk_block(i as int, x) {
                let (j2, k2) = choose|j2: int, k2: usize|
                    0 <= j2 < self.classes() && self.chunk_class(j2) == i && #[trigger] self.chunks_of(j2).contains_key(k2)
                        && self.chunks_of(j2)[k2] is Dynamic && self.chunks_of(j2)[k2]->Dynamic_0.index_view() == x;
                assert(s0.class_ok(j2));
                assert(s0.chunk_ok(j2, s0.chunks_of(j2)[k2]));
                assert(false);
            }
        }
        let ghost s1 = *self;
        let freed = self.release(device, i, x);
        proof {
            assert forall|b: DynamicBlock|
                s0.is_live(&b) && !(s0.class_of(&b) == s0.class_of(&block) && b.index_view() == block.index_view())
                    implies self.is_live(&b) by {
                let jb = s0.class_of(&b);
                assert(s1.user_of(jb).contains(b.index_view()));
                assert(s1.taken(jb, b));
            }
        }
        freed
    }

    /// Perform full cleanup of the memory allocated: every chunk must have been freed, and
    /// then no device memory is held.
    pub fn dispose(self)
        requires
            self.wf(),
            forall|i: int| 0 <= i < self.classes() ==> #[trigger] self.chunk_count(i) == 0,
        ensures
            self.held() == 0,
    {
        proof {
            let l = self.ledger_view();
            if l.len() > 0 {
                let (i, k, m) = l[0];
                assert(self.class_ok(i));
                assert(self.chunks_of(i).contains_key(k));
                assert(self.chunks_of(i).dom().contains(k));
                vstd::set_lib::lemma_set_empty_equivalency_len(self.chunks_of(i).dom());
                assert(false);
            }
        }
    }
}

/// A multiple of a multiple of `a` is a multiple of `a`.
proof fn lemma_aligned_multiple(x: int, b: int, a: int)
    requires
        x >= 0,
        b > 0,
        a > 0,
        x % b == 0,
        b % a == 0,
    ensures
        x % a == 0,
{
    vstd::arithmetic::div_mod::lemma_fundamental_div_mod(x, b);
    vstd::arithmetic::div_mod::lemma_fundamental_div_mod(b, a);
    let q = x / b;
    let p = b / a;
    assert(x == (p * q) * a) by (nonlinear_arith)
        requires x == b * q + 0, b == a * p + 0;
    vstd::arithmetic::div_mod::lemma_mod_multiples_basic(p * q, a);
}

/// With power-of-two granularity and alignment, a request whose size rounded up to the
/// alignment can still be served gets a block whose size is a multiple of the alignment.
pub proof fn lemma_request_block_aligned(d: &DynamicAllocator, size: u64, align: u64)
    requires
        d.wf(),
        is_pow2(d.granularity_view()),
        is_pow2(align),
        aligned_spec(max_u64(size, align), align) <= d.max_block_size_view(),
    ensures
        d.block_size_of(d.size_index_of(d.request_size(size, align))) % (align as int) == 0,
{
    let m = max_u64(size, align);
    let g = d.granularity_view();
    let mx = d.max_block_size_view();
    let n = d.per_chunk() as int;
    let a = align;
    assert(((m - 1) as u64 | (a - 1) as u64) >= (m - 1) as u64) by (bit_vector)
        requires m > 0;
    assert(m * 32 <= u64::MAX) by (nonlinear_arith)
        requires m <= mx, mx * n <= u64::MAX, n >= 32, mx >= 0;
    assert(((m - 1) as u64 | (a - 1) as u64) <= (m - 1) + (a - 1)) by (bit_vector)
        requires 0 < a <= m, m <= 0x07ff_ffff_ffff_ffffu64;
    lemma_aligned_spec(m, align);
    let r = aligned_spec(m, align);
    assert(d.request_size(size, align) == r);
    let gi = g as int;
    let ai = align as int;
    let k = d.size_index_of(r) + 1;
    vstd::arithmetic::div_mod::lemma_fundamental_div_mod(r - 1, gi);
    assert(k >= 1);
    if g >= align {
        lemma_pow2_divides(align, g);
        vstd::arithmetic::div_mod::lemma_fundamental_div_mod(gi, ai);
        let p = gi / ai;
        assert(gi * k == (p * k) * ai) by (nonlinear_arith)
            requires gi == ai * p + 0;
        vstd::arithmetic::div_mod::lemma_mod_multiples_basic(p * k, ai);
    } else {
        lemma_pow2_divides(g, align);
        lemma_aligned_multiple(r, ai, gi);
        vstd::arithmetic::div_mod::lemma_fundamental_div_mod(r, gi);
        let q = r / gi;
        assert(q >= 1) by (nonlinear_arith)
            requires r == gi * q + 0, r > 0, gi > 0;
        lemma_size_index_of_multiple(gi, q);
        assert(d.block_size_of(d.size_index_of(r)) == r);
    }
}

/// The larger of two sizes.
pub open spec fn max_u64(a: u64, b: u64) -> u64 {
    if a < b {
        b
    } else {
        a
    }
}

} // verus!

verus! {

/// Every freed block can be recycled independently: a block reused from the free blocks of
/// its size and freed again leaves the free blocks as they were, unless all the other blocks
/// of its chunk are free, in which case the chunk itself is released.
pub proof fn lemma_reuse_then_free(a: &DynamicAllocator, b: &DynamicAllocator, c: &DynamicAllocator, i: int, x: u32)
    requires
        a.reuses(i, x),
        b.free_of(i) == a.free_of(i).remove(x),
        b.chunks_of(i) == a.chunks_of(i),
        b.per_chunk() == a.per_chunk(),
        b.rest_free(i, x) ==> c.chunks_of(i) == b.chunks_of(i).remove(b.chunk_index_of(x)),
        !b.rest_free(i, x) ==> c.chunks_of(i) == b.chunks_of(i) && c.free_of(i) == b.free_of(i).insert(x),
    ensures
        a.rest_free(i, x) ==> c.chunks_of(i) == a.chunks_of(i).remove(a.chunk_index_of(x)),
        !a.rest_free(i, x) ==> c.chunks_of(i) == a.chunks_of(i) && c.free_of(i) == a.free_of(i),
{
    assert(a.rest_free(i, x) == b.rest_free(i, x)) by {
        if a.rest_free(i, x) {
            assert forall|y: u32| b.chunk_index_of(y) == b.chunk_index_of(x) && y != x implies #[trigger] b.free_of(i).contains(
                y,
            ) by {
                assert(a.free_of(i).contains(y));
            }
        }
        if b.rest_free(i, x) {
            assert forall|y: u32| a.chunk_index_of(y) == a.chunk_index_of(x) && y != x implies #[trigger] a.free_of(i).contains(
                y,
            ) by {
                assert(b.free_of(i).contains(y));
            }
        }
    }
    if !a.rest_free(i, x) {
        assert(c.free_of(i) =~= a.free_of(i));
    }
}

} // verus!

verus! {

/// Two live blocks of one size taken from one chunk do not overlap: each block has its own
/// place in the chunk.
pub proof fn lemma_chunk_blocks_disjoint(a: &DynamicAllocator, b1: &DynamicBlock, b2: &DynamicBlock)
    requires
        a.wf(),
        a.is_live(b1),
        a.is_live(b2),
        a.class_of(b1) == a.class_of(b2),
        a.chunk_index_of(b1.index_view()) == a.chunk_index_of(b2.index_view()),
        b1.index_view() != b2.index_view(),
    ensures
        b1.range_view().end <= b2.range_view().start || b2.range_view().end <= b1.range_view().start,
{
    let i = a.class_of(b1);
    let n = a.per_chunk() as int;
    let bs = a.block_size_of(i);
    let x1 = b1.index_view() as int;
    let x2 = b2.index_view() as int;
    let c = a.chunks_of(i)[a.chunk_index_of(b1.index_view())];
    assert(a.class_ok(i));
    assert(a.chunk_ok(i, c));
    vstd::arithmetic::div_mod::lemma_fundamental_div_mod(x1, n);
    vstd::arithmetic::div_mod::lemma_fundamental_div_mod(x2, n);
    let o1 = x1 % n;
    let o2 = x2 % n;
    assert(o1 != o2);
    assert(bs > 0) by (nonlinear_arith)
        requires bs == a.granularity_view() * (i + 1), a.granularity_view() > 0, i >= 0;
    assert(c.range_view().end - c.range_view().start == bs * n);
    assert(o1 * bs + bs <= bs * n) by (nonlinear_arith)
        requires 0 <= o1 < n, bs > 0;
    assert(o2 * bs + bs <= bs * n) by (nonlinear_arith)
        requires 0 <= o2 < n, bs > 0;
    if o1 < o2 {
        assert(o1 * bs + bs <= o2 * bs) by (nonlinear_arith)
            requires o1 < o2, bs > 0;
    } else {
        assert(o2 * bs + bs <= o1 * bs) by (nonlinear_arith)
            requires o2 < o1, bs > 0;
    }
}

} // verus!
