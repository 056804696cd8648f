//! Heaps: memory types of a physical device, each with its sub-allocators, and the
//! device heaps they draw from.

use crate::memory::allocator::dedicated::{DedicatedAllocator, DedicatedBlock};
use crate::memory::allocator::dynamic::{dynamic_config_ok, ledger_granted, lemma_ledger_bytes_nonneg, max_u64, DynamicAllocator, DynamicBlock, DynamicConfig};
use crate::memory::allocator::linear::{LinearAllocator, LinearBlock, LinearConfig, MAX_LINE_SIZE};
use crate::memory::device::{released_all, Device};
use crate::memory::error::MappingError;
use crate::memory::mapping::MappedRange;
use crate::memory::memory::Memory;
use crate::memory::error::{AllocationError, HeapsError, MemoryError, OutOfMemoryError};
use crate::memory::properties::Properties;
use crate::memory::usage::{Kind, MemoryUsage};
use crate::memory::util::is_pow2;
use std::ops::Range;
use vstd::prelude::*;

verus! {

/// Config for `Heaps` allocator.
#[derive(Clone, Copy, Debug)]
pub struct HeapsConfig {
    /// Config for linear sub-allocator.
    pub linear: Option<LinearConfig>,
    /// Config for dynamic sub-allocator.
    pub dynamic: Option<DynamicConfig>,
}

/// Memory heap: size and number of bytes allocated from it.
#[derive(Clone, Copy, Debug)]
pub struct MemoryHeap {
    size: u64,
    used: u64,
}

impl MemoryHeap {
    /// Size of the heap.
    pub closed spec fn size_view(&self) -> u64 {
        self.size
    }

    /// Bytes allocated from the heap.
    pub closed spec fn used_view(&self) -> u64 {
        self.used
    }

    /// Create heap of `size` bytes with nothing allocated.
    pub fn new(size: u64) -> (r: Self)
        ensures
            r.size_view() == size,
            r.used_view() == 0,
    {
        MemoryHeap { size, used: 0 }
    }

    /// Bytes still available in the heap.
    pub fn available(&self) -> (r: u64)
        requires
            self.used_view() <= self.size_view(),
        ensures
            r == self.size_view() - self.used_view(),
    {
        self.size - self.used
    }
}

/// Block allocated by one of the sub-allocators of a memory type.
#[derive(Debug)]
pub enum BlockFlavor {
    /// From the dedicated allocator.
    Dedicated(DedicatedBlock),
    /// From the linear allocator.
    Linear(LinearBlock),
    /// From the dynamic allocator.
    Dynamic(DynamicBlock),
}

impl BlockFlavor {
    /// Range of the block in its memory object.
    pub open spec fn range_view(&self) -> Range<u64> {
        match self {
            BlockFlavor::Dedicated(b) => Range { start: 0u64, end: b.memory_view().size },
            BlockFlavor::Linear(b) => b.range_view(),
            BlockFlavor::Dynamic(b) => b.range_view(),
        }
    }

    /// Properties of the memory of the block.
    pub open spec fn properties_view(&self) -> Properties {
        match self {
            BlockFlavor::Dedicated(b) => b.memory_view().properties,
            BlockFlavor::Linear(b) => b.memory_view().properties,
            BlockFlavor::Dynamic(b) => b.memory_view().properties,
        }
    }

    /// Memory object of the block.
    pub open spec fn memory_view(&self) -> Memory {
        match self {
            BlockFlavor::Dedicated(b) => b.memory_view(),
            BlockFlavor::Linear(b) => b.memory_view(),
            BlockFlavor::Dynamic(b) => b.memory_view(),
        }
    }

    /// The block is consistent: valid range, addressable mapping.
    pub open spec fn wf(&self) -> bool {
        match self {
            BlockFlavor::Dedicated(b) => b.wf(),
            BlockFlavor::Linear(b) => b.wf(),
            BlockFlavor::Dynamic(b) => b.wf(),
        }
    }

    /// Freeing other blocks leaves this block live: every block but an empty one of the
    /// linear allocator, whose line is released once its other blocks are freed.
    pub open spec fn pinned(&self) -> bool {
        !(self is Linear) || self.range_view().start < self.range_view().end
    }

    /// Kind of allocator the block comes from.
    pub open spec fn kind(&self) -> Kind {
        match self {
            BlockFlavor::Dedicated(_) => Kind::Dedicated,
            BlockFlavor::Linear(_) => Kind::Linear,
            BlockFlavor::Dynamic(_) => Kind::Dynamic,
        }
    }
}

/// Two handles name the same block: same allocator kind and the same identity within it.
pub open spec fn same_block(a: &BlockFlavor, b: &BlockFlavor) -> bool {
    match (a, b) {
        (BlockFlavor::Dedicated(x), BlockFlavor::Dedicated(y)) => x.memory_view() == y.memory_view(),
        (BlockFlavor::Linear(x), BlockFlavor::Linear(y)) => x.index_view() == y.index_view()
            && x.range_view() == y.range_view(),
        (BlockFlavor::Dynamic(x), BlockFlavor::Dynamic(y)) => x.index_view() == y.index_view()
            && x.size_view() == y.size_view(),
        _ => false,
    }
}

/// Memory type with its allocators.
pub struct MemoryType {
    heap_index: usize,
    properties: Properties,
    dedicated: DedicatedAllocator,
    linear: Option<LinearAllocator>,
    dynamic: Option<DynamicAllocator>,
}

impl MemoryType {
    /// Heap the memory type draws from.
    pub closed spec fn heap_index_view(&self) -> usize {
        self.heap_index
    }

    /// Properties of the memory type.
    pub closed spec fn properties_view(&self) -> Properties {
        self.properties
    }

    /// Dedicated allocator of the type.
    pub closed spec fn dedicated_view(&self) -> DedicatedAllocator {
        self.dedicated
    }

    /// Linear allocator of the type, if configured.
    pub closed spec fn linear_view(&self) -> Option<LinearAllocator> {
        self.linear
    }

    /// Dynamic allocator of the type, if configured.
    pub closed spec fn dynamic_view(&self) -> Option<DynamicAllocator> {
        self.dynamic
    }

    /// Memory type the allocators allocate from.
    pub open spec fn memory_type_view(&self) -> u32 {
        self.dedicated_view().memory_type_view()
    }

    /// Device memory held by the allocators of the type.
    pub open spec fn held(&self) -> int {
        self.dedicated_view().held() + match self.linear_view() {
            Some(l) => l.held(),
            None => 0,
        } + match self.dynamic_view() {
            Some(d) => d.held(),
            None => 0,
        }
    }

    /// `block` was allocated from this type and not freed yet.
    pub open spec fn is_live(&self, block: &BlockFlavor) -> bool {
        match block {
            BlockFlavor::Dedicated(b) => self.dedicated_view().is_live(b) && b.wf(),
            BlockFlavor::Linear(b) => self.linear_view() matches Some(l) && l.is_live(b),
            BlockFlavor::Dynamic(b) => self.dynamic_view() matches Some(d) && d.is_live(b),
        }
    }

    /// No block was allocated from the type.
    pub open spec fn untouched(&self) -> bool {
        &&& self.dedicated_view().live_view().len() == 0
        &&& self.linear_view() matches Some(l) ==> l.line_count() == 0
        &&& self.dynamic_view() matches Some(d) ==> forall|i: int|
            0 <= i < d.classes() ==> #[trigger] d.user_of(i) == Set::<u32>::empty()
    }

    /// Allocators are well-formed and allocate with the type's properties.
    pub open spec fn wf(&self) -> bool {
        &&& self.dedicated_view().wf()
        &&& self.dedicated_view().memory_properties_view() == self.properties_view()
        &&& self.linear_view() matches Some(l) ==> {
            &&& l.wf()
            &&& l.memory_type_view() == self.memory_type_view()
            &&& l.memory_properties_view() == self.properties_view()
            &&& self.properties_view().cpu_visible
        }
        &&& self.dynamic_view() matches Some(d) ==> {
            &&& d.wf()
            &&& d.memory_type_view() == self.memory_type_view()
            &&& d.memory_properties_view() == self.properties_view()
        }
    }

    /// The dynamic allocator serves blocks of up to `size` bytes and rates above `other`.
    pub open spec fn dynamic_serves<U: MemoryUsage>(&self, usage: U, size: u64, other: u32) -> bool {
        self.dynamic_view() matches Some(d) && d.max_block_size_view() >= size && usage.kind_fitness(Kind::Dynamic)
            > other
    }

    /// The linear allocator serves blocks of `size` bytes and the usage accepts it.
    pub open spec fn linear_serves<U: MemoryUsage>(&self, usage: U, size: u64) -> bool {
        self.linear_view() matches Some(l) && l.linear_size_view() / 2 >= size && usage.kind_fitness(Kind::Linear) > 0
    }

    /// Kind of allocator that serves a request of `size` bytes for `usage`.
    /// With both a dynamic and a linear allocator, the dynamic one is chosen when the usage
    /// rates it above the linear one; each is only chosen for sizes it can serve.
    pub open spec fn serving_kind<U: MemoryUsage>(&self, usage: U, size: u64) -> Kind {
        let other = if self.linear_view() is Some {
            usage.kind_fitness(Kind::Linear)
        } else {
            0
        };
        if self.dynamic_serves(usage, size, other) {
            Kind::Dynamic
        } else if self.linear_serves(usage, size) {
            Kind::Linear
        } else {
            Kind::Dedicated
        }
    }

    /// A request of `size` bytes aligned to `align` is within what the serving
    /// allocator accepts, and the memory it may take stays countable in 64 bits.
    pub open spec fn accepts<U: MemoryUsage>(&self, usage: U, size: u64, align: u64) -> bool {
        match self.serving_kind(usage, size) {
            Kind::Linear => {
                let l = self.linear_view().unwrap();
                &&& 0 < align <= l.linear_size_view()
                &&& l.offset_view() + l.line_count() < u64::MAX
                &&& l.held() + l.linear_size_view() <= u64::MAX
            },
            Kind::Dynamic => {
                let d = self.dynamic_view().unwrap();
                0 < max_u64(size, align) <= d.max_block_size_view()
            },
            Kind::Dedicated => self.dedicated_view().held() + size <= u64::MAX,
        }
    }

    /// The serving allocator has room for the request without asking the device: a free
    /// block of the size the dynamic allocator serves, or room in the linear allocator's
    /// last line. The dedicated allocator always asks the device.
    pub open spec fn pool_serves<U: MemoryUsage>(&self, usage: U, size: u64, align: u64) -> bool {
        match self.serving_kind(usage, size) {
            Kind::Dynamic => {
                let d = self.dynamic_view().unwrap();
                d.free_of(d.size_index_of(d.request_size(size, align))) != Set::<u32>::empty()
            },
            Kind::Linear => self.linear_view().unwrap().fits_back(size, align),
            Kind::Dedicated => false,
        }
    }

    /// `after` is this memory type once `block` was allocated for a request of `size` bytes
    /// aligned to `align`: each memory object the allocators took was given by `device`
    /// from this memory type, with the size asked, and a new line was mapped whole.
    pub open spec fn acquires<D: Device>(
        &self,
        after: &Self,
        block: &BlockFlavor,
        size: u64,
        align: u64,
        device: &D,
    ) -> bool {
        match block {
            BlockFlavor::Dedicated(b) => device.grants(self.memory_type_view(), size, b.memory_view().raw),
            BlockFlavor::Linear(b) => {
                let l = self.linear_view().unwrap();
                !l.fits_back(size, align) ==> {
                    &&& device.grants(self.memory_type_view(), l.linear_size_view(), b.memory_view().raw)
                    &&& device.maps(b.memory_view().raw, Range { start: 0u64, end: l.linear_size_view() }, b.ptr_view())
                }
            },
            BlockFlavor::Dynamic(_) => ledger_granted(
                device,
                self.memory_type_view(),
                self.dynamic_view().unwrap().ledger_view(),
                after.dynamic_view().unwrap().ledger_view(),
            ),
        }
    }

    /// The block serving the request is known to start at a multiple of `align`: the dynamic
    /// allocator places blocks at multiples of their size, which must then be a multiple of
    /// `align`; the linear allocator aligns blocks, the dedicated one starts them at zero.
    pub open spec fn aligns<U: MemoryUsage>(&self, usage: U, size: u64, align: u64) -> bool {
        match self.serving_kind(usage, size) {
            Kind::Dynamic => {
                let d = self.dynamic_view().unwrap();
                d.block_size_of(d.size_index_of(d.request_size(size, align))) % (align as int) == 0
            },
            _ => true,
        }
    }

    /// `after` is this memory type once `block` was freed, which returned `r` bytes: the
    /// allocator the block came from released it, handing back to `device` the memory
    /// objects it no longer holds; the other allocators are unchanged.
    pub open spec fn releases<D: Device>(&self, after: &Self, block: &BlockFlavor, r: u64, device: &D) -> bool {
        match block {
            BlockFlavor::Dedicated(b) => {
                &&& self.dedicated_view().releases(&after.dedicated_view(), b, r)
                &&& device.frees(b.memory_view().raw)
                &&& b.mapping_view() is Some ==> device.unmaps(b.memory_view().raw)
                &&& after.linear_view() == self.linear_view()
                &&& after.dynamic_view() == self.dynamic_view()
            },
            BlockFlavor::Linear(b) => {
                &&& self.linear_view() is Some
                &&& after.linear_view() is Some
                &&& self.linear_view().unwrap().releases(&after.linear_view().unwrap(), b, r, device)
                &&& after.dedicated_view() == self.dedicated_view()
                &&& after.dynamic_view() == self.dynamic_view()
            },
            BlockFlavor::Dynamic(b) => {
                &&& self.dynamic_view() is Some
                &&& after.dynamic_view() is Some
                &&& self.dynamic_view().unwrap().releases(&after.dynamic_view().unwrap(), b, r, device)
                &&& after.dedicated_view() == self.dedicated_view()
                &&& after.linear_view() == self.linear_view()
            },
        }
    }

    /// Most memory a request of `size` bytes can take from the device.
    pub open spec fn max_grant(&self, size: u64) -> int {
        size + match self.linear_view() {
            Some(l) => l.linear_size_view() as int,
            None => 0,
        } + match self.dynamic_view() {
            Some(d) => d.max_block_size_view() * d.per_chunk(),
            None => 0,
        }
    }

    /// Create memory type with the allocators configured in `config`. A linear
    /// allocator is only created for host-visible memory.
    pub fn new(
        memory_type: u32,
        heap_index: usize,
        properties: Properties,
        config: HeapsConfig,
        non_coherent_atom_size: u64,
    ) -> (r: Self)
        requires
            config.linear matches Some(c) ==> c.linear_size <= usize::MAX && c.linear_size <= MAX_LINE_SIZE,
            config.dynamic matches Some(c) ==> dynamic_config_ok(c, properties),
        ensures
            r.wf(),
            r.memory_type_view() == memory_type,
            r.heap_index_view() == heap_index,
            r.properties_view() == properties,
            r.held() == 0,
            r.untouched(),
            r.linear_view() is Some <==> (properties.cpu_visible && config.linear is Some),
            r.linear_view() matches Some(l) ==> l.linear_size_view() == config.linear.unwrap().linear_size,
            r.dynamic_view() is Some <==> config.dynamic is Some,
            r.dynamic_view() matches Some(d) ==> d.max_block_size_view() == config.dynamic.unwrap().max_block_size
                && d.granularity_view() == config.dynamic.unwrap().block_size_granularity,
    {
        let linear = if properties.contains(Properties::cpu_visible_only()) {
            match config.linear {
                Some(c) => Some(LinearAllocator::new(memory_type, properties, c, non_coherent_atom_size)),
                None => None,
            }
        } else {
            None
        };
        let dynamic = match config.dynamic {
            Some(c) => Some(DynamicAllocator::new(memory_type, properties, c, non_coherent_atom_size)),
            None => None,
        };
        let r = MemoryType {
            properties,
            heap_index,
            dedicated: DedicatedAllocator::new(memory_type, properties, non_coherent_atom_size),
            linear,
            dynamic,
        };
        proof {
            if let Some(d) = r.dynamic_view() {
                assert(d.held() == 0);
            }
        }
        r
    }

    /// Properties of the memory type.
    pub fn properties(&self) -> (r: Properties)
        ensures
            r == self.properties_view(),
    {
        self.properties
    }

    /// Heap the memory type draws from.
    pub fn heap_index(&self) -> (r: usize)
        ensures
            r == self.heap_index_view(),
    {
        self.heap_index
    }

    /// Allocate block with the allocator that suits `usage` and `size` best.
    /// Returns the block and the amount of memory taken from the device.
    pub fn alloc_block<D: Device, U: MemoryUsage>(
        &mut self,
        device: &D,
        usage: U,
        size: u64,
        align: u64,
    ) -> (r: Result<(BlockFlavor, u64), MemoryError>)
        requires
            old(self).wf(),
            old(self).accepts(usage, size, align),
        ensures
            final(self).wf(),
            final(self).memory_type_view() == old(self).memory_type_view(),
            final(self).heap_index_view() == old(self).heap_index_view(),
            final(self).properties_view() == old(self).properties_view(),
            final(self).linear_view() is Some == old(self).linear_view() is Some,
            final(self).linear_view() matches Some(l) ==> l.linear_size_view()
                == old(self).linear_view().unwrap().linear_size_view(),
            final(self).same_dynamic(old(self)),
            forall|b: BlockFlavor| old(self).is_live(&b) ==> final(self).is_live(&b),
            r matches Ok((block, _)) ==> old(self).acquires(&*final(self), &block, size, align, device),
            match r {
                Ok((block, allocated)) => {
                    &&& final(self).is_live(&block)
                    &&& block.wf()
                    &&& block.kind() == old(self).serving_kind(usage, size)
                    &&& block.properties_view() == old(self).properties_view()
                    &&& block.range_view().start <= block.range_view().end
                    &&& block.range_view().end - block.range_view().start == old(self).granted(usage, size, align)
                    &&& final(self).held() == old(self).held() + allocated
                    &&& allocated <= old(self).max_grant(size)
                    &&& is_pow2(align) && old(self).aligns(usage, size, align) ==> block.range_view().start % align == 0
                },
                Err(_) => *final(self) == *old(self),
            },
            old(self).pool_serves(usage, size, align) ==> r is Ok,
    {
        let other = match &self.linear {
            Some(_) => usage.allocator_fitness(Kind::Linear),
            None => 0,
        };
        let use_dynamic = match &self.dynamic {
            Some(dynamic) => dynamic.max_allocation() >= size && usage.allocator_fitness(Kind::Dynamic) > other,
            None => false,
        };
        let use_linear = match &self.linear {
            Some(linear) => linear.max_allocation() >= size && usage.allocator_fitness(Kind::Linear) > 0,
            None => false,
        };
        if use_dynamic {
            let mut dynamic = self.dynamic.take().unwrap();
            let r = dynamic.alloc_block(device, size, align);
            self.dynamic = Some(dynamic);
            match r {
                Ok((block, allocated)) => Ok((BlockFlavor::Dynamic(block), allocated)),
                Err(e) => Err(e),
            }
        } else if use_linear {
            let mut linear = self.linear.take().unwrap();
            let r = linear.alloc_block(device, size, align);
            self.linear = Some(linear);
            match r {
                Ok((block, allocated)) => Ok((BlockFlavor::Linear(block), allocated)),
                Err(e) => Err(e),
            }
        } else {
            let r = self.dedicated.alloc_block(device, size, align);
            match r {
                Ok((block, allocated)) => Ok((BlockFlavor::Dedicated(block), allocated)),
                Err(e) => Err(e),
            }
        }
    }

    /// Free block allocated from this type.
    /// Returns the amount of memory returned to the device.
    pub fn free<D: Device>(&mut self, device: &D, block: BlockFlavor) -> (r: u64)
        requires
            old(self).wf(),
            old(self).is_live(&block),
        ensures
            final(self).wf(),
            final(self).memory_type_view() == old(self).memory_type_view(),
            final(self).heap_index_view() == old(self).heap_index_view(),
            final(self).properties_view() == old(self).properties_view(),
            final(self).linear_view() is Some == old(self).linear_view() is Some,
            final(self).linear_view() matches Some(l) ==> l.linear_size_view()
                == old(self).linear_view().unwrap().linear_size_view(),
            final(self).same_dynamic(old(self)),
            final(self).held() == old(self).held() - r,
            old(self).releases(&*final(self), &block, r, device),
            forall|b: BlockFlavor| old(self).is_live(&b) && !same_block(&b, &block) && b.pinned() ==> final(self).is_live(&b),
    {
        match block {
            BlockFlavor::Dedicated(block) => self.dedicated.free(device, block),
            BlockFlavor::Linear(block) => {
                let mut linear = self.linear.take().unwrap();
                let r = linear.free(device, block);
                self.linear = Some(linear);
                r
            },
            BlockFlavor::Dynamic(block) => {
                let mut dynamic = self.dynamic.take().unwrap();
                let r = dynamic.free(device, block);
                self.dynamic = Some(dynamic);
                r
            },
        }
    }

    /// Dispose of the allocators, returning lines whose blocks are all freed. The dynamic
    /// allocator must have no chunks left.
    pub fn dispose<D: Device>(self, device: &D)
        requires
            self.wf(),
            self.dynamic_drained(),
        ensures
            (forall|b: BlockFlavor| !#[trigger] self.is_live(&b)) ==> (self.linear_view() matches Some(l)
                ==> released_all(device, l.memories_view())),
    {
        proof {
            if forall|b: BlockFlavor| !#[trigger] self.is_live(&b) {
                if let Some(l) = self.linear_view() {
                    assert forall|lb: LinearBlock| !l.is_live(&lb) by {
                        assert(!self.is_live(&BlockFlavor::Linear(lb)));
                    }
                }
            }
        }
        match self.linear {
            Some(linear) => linear.dispose(device),
            None => {},
        }
        match self.dynamic {
            Some(dynamic) => dynamic.dispose(),
            None => {},
        }
    }

    /// The dynamic allocator, if any, has no chunks left.
    pub open spec fn dynamic_drained(&self) -> bool {
        self.dynamic_view() matches Some(d) ==> forall|i: int| 0 <= i < d.classes() ==> #[trigger] d.chunk_count(i) == 0
    }

    /// `self` has a dynamic allocator exactly when `other` has, with the same block sizes.
    pub open spec fn same_dynamic(&self, other: &Self) -> bool {
        &&& self.dynamic_view() is Some == other.dynamic_view() is Some
        &&& self.dynamic_view() matches Some(d) ==> {
            &&& d.same_config(&other.dynamic_view().unwrap())
            &&& other.dynamic_view().unwrap().same_config(&d)
        }
    }

    /// Size of the block a request of `size` bytes aligned to `align` gets: the dynamic
    /// allocator rounds `max(size, align)` up to its block size, the others give `size`.
    pub open spec fn granted<U: MemoryUsage>(&self, usage: U, size: u64, align: u64) -> int {
        match self.serving_kind(usage, size) {
            Kind::Dynamic => {
                let d = self.dynamic_view().unwrap();
                d.block_size_of(d.size_index_of(d.request_size(size, align)))
            },
            _ => size as int,
        }
    }
}

} // verus!

verus! {

/// Memory held by the types of `types` that draw from heap `h`.
pub open spec fn heap_held(types: Seq<MemoryType>, h: int) -> int
    decreases types.len(),
{
    if types.len() == 0 {
        0
    } else {
        heap_held(types.drop_last(), h) + if types.last().heap_index_view() == h {
            types.last().held()
        } else {
            0
        }
    }
}

proof fn lemma_heap_held_update(types: Seq<MemoryType>, t: int, nt: MemoryType, h: int)
    requires
        0 <= t < types.len(),
        nt.heap_index_view() == types[t].heap_index_view(),
    ensures
        heap_held(types.update(t, nt), h) == heap_held(types, h) + if types[t].heap_index_view() == h {
            nt.held() - types[t].held()
        } else {
            0
        },
    decreases types.len(),
{
    if t == types.len() - 1 {
        assert(types.update(t, nt).drop_last() =~= types.drop_last());
    } else {
        lemma_heap_held_update(types.drop_last(), t, nt, h);
        assert(types.update(t, nt).drop_last() =~= types.drop_last().update(t, nt));
    }
}

proof fn lemma_heap_held_bound(types: Seq<MemoryType>, t: int, h: int)
    requires
        0 <= t < types.len(),
        types[t].heap_index_view() == h,
        forall|u: int| 0 <= u < types.len() ==> #[trigger] types[u].held() >= 0,
    ensures
        heap_held(types, h) >= types[t].held(),
        heap_held(types, h) >= 0,
    decreases types.len(),
{
    lemma_heap_held_nonneg(types.drop_last(), h);
    if t < types.len() - 1 {
        assert(types.drop_last()[t] == types[t]);
        assert forall|u: int| 0 <= u < types.drop_last().len() implies #[trigger] types.drop_last()[u].held() >= 0 by {
            assert(types.drop_last()[u] == types[u]);
        }
        lemma_heap_held_bound(types.drop_last(), t, h);
    }
    assert(types.last().held() >= 0);
}

proof fn lemma_heap_held_nonneg(types: Seq<MemoryType>, h: int)
    requires
        forall|u: int| 0 <= u < types.len() ==> #[trigger] types[u].held() >= 0,
    ensures
        heap_held(types, h) >= 0,
    decreases types.len(),
{
    if types.len() > 0 {
        assert forall|u: int| 0 <= u < types.drop_last().len() implies #[trigger] types.drop_last()[u].held() >= 0 by {
            assert(types.drop_last()[u] == types[u]);
        }
        lemma_heap_held_nonneg(types.drop_last(), h);
        assert(types.last().held() >= 0);
    }
}

proof fn lemma_heap_held_zero(types: Seq<MemoryType>, h: int)
    requires
        forall|u: int| 0 <= u < types.len() ==> (#[trigger] types[u]).held() == 0,
    ensures
        heap_held(types, h) == 0,
    decreases types.len(),
{
    if types.len() > 0 {
        assert forall|u: int| 0 <= u < types.drop_last().len() implies (#[trigger] types.drop_last()[u]).held() == 0 by {
            assert(types.drop_last()[u] == types[u]);
        }
        lemma_heap_held_zero(types.drop_last(), h);
        assert(types.last().held() == 0);
    }
}

/// No block is live in a memory type nothing was allocated from.
pub proof fn lemma_untouched_not_live(t: MemoryType, b: BlockFlavor)
    requires
        t.untouched(),
    ensures
        !t.is_live(&b),
{
    match b {
        BlockFlavor::Dedicated(x) => {
            if t.is_live(&b) {
                assert(t.dedicated_view().live_view().contains(x.memory_view()));
            }
        },
        BlockFlavor::Linear(_) => {},
        BlockFlavor::Dynamic(x) => {
            if t.is_live(&b) {
                let d = t.dynamic_view().unwrap();
                let i = d.class_of(&x);
                assert(d.user_of(i).contains(x.index_view()));
            }
        },
    }
}

/// A memory type holds no negative amount of memory.
pub proof fn lemma_held_nonneg(t: MemoryType)
    requires
        t.wf(),
    ensures
        t.held() >= 0,
{
    match t.linear_view() {
        Some(l) => {
            let n = l.line_count();
            let s = l.linear_size_view();
            assert(n * s >= 0) by (nonlinear_arith)
                requires n >= 0, s >= 0;
        },
        None => {},
    }
    if let Some(d) = t.dynamic_view() {
        lemma_ledger_bytes_nonneg(d.ledger_view());
    }
}

/// Memory block allocated from `Heaps`.
#[derive(Debug)]
pub struct MemoryBlock {
    block: BlockFlavor,
    memory_index: u32,
}

impl MemoryBlock {
    /// Block of the sub-allocator.
    pub closed spec fn flavor_view(&self) -> BlockFlavor {
        self.block
    }

    /// Memory type the block was allocated from.
    pub closed spec fn memory_index_view(&self) -> u32 {
        self.memory_index
    }

    /// Get mapping for `range` of the block: a sub-range relative to the block's start for
    /// blocks of the linear and dynamic allocators, a range of the memory object for blocks
    /// of the dedicated allocator, whose mapping is kept with the block.
    pub fn map<D: Device>(&mut self, device: &D, range: Range<u64>) -> (r: Result<MappedRange, MappingError>)
        requires
            old(self).flavor_view().wf(),
            range.start <= range.end,
            old(self).flavor_view() is Linear ==> range.start < range.end,
        ensures
            final(self).flavor_view().wf(),
            final(self).memory_index_view() == old(self).memory_index_view(),
            same_block(&final(self).flavor_view(), &old(self).flavor_view()),
            final(self).flavor_view().memory_view() == old(self).flavor_view().memory_view(),
            final(self).flavor_view().range_view() == old(self).flavor_view().range_view(),
            !(old(self).flavor_view() is Dedicated) ==> *final(self) == *old(self),
            !old(self).flavor_view().properties_view().cpu_visible ==> r == Err::<MappedRange, MappingError>(
                MappingError::HostInvisible,
            ),
            r matches Ok(m) ==> m.wf() && m.memory_view() == old(self).flavor_view().memory_view(),
    {
        match &mut self.block {
            BlockFlavor::Dedicated(b) => b.map(device, range),
            BlockFlavor::Linear(b) => b.map(range),
            BlockFlavor::Dynamic(b) => b.map(range),
        }
    }

    /// Release the mapping of the block, if it holds one.
    pub fn unmap<D: Device>(&mut self, device: &D)
        requires
            old(self).flavor_view().wf(),
        ensures
            final(self).flavor_view().wf(),
            final(self).memory_index_view() == old(self).memory_index_view(),
            same_block(&final(self).flavor_view(), &old(self).flavor_view()),
            final(self).flavor_view().memory_view() == old(self).flavor_view().memory_view(),
            final(self).flavor_view().range_view() == old(self).flavor_view().range_view(),
            !(old(self).flavor_view() is Dedicated) ==> *final(self) == *old(self),
            old(self).flavor_view() is Dedicated ==> (final(self).flavor_view() matches BlockFlavor::Dedicated(b)
                && b.mapping_view() is None),
            old(self).flavor_view() matches BlockFlavor::Dedicated(b) ==> (b.mapping_view() is Some ==> device.unmaps(
                b.memory_view().raw,
            )),
    {
        match &mut self.block {
            BlockFlavor::Dedicated(b) => b.unmap(device),
            BlockFlavor::Linear(b) => b.unmap(),
            BlockFlavor::Dynamic(b) => b.unmap(),
        }
    }

    /// Get memory type id.
    pub fn memory_type(&self) -> (r: u32)
        ensures
            r == self.memory_index_view(),
    {
        self.memory_index
    }

    /// Get memory properties of the block.
    pub fn properties(&self) -> (r: Properties)
        ensures
            r == self.flavor_view().properties_view(),
    {
        match &self.block {
            BlockFlavor::Dedicated(b) => b.properties(),
            BlockFlavor::Linear(b) => b.properties(),
            BlockFlavor::Dynamic(b) => b.properties(),
        }
    }

    /// Get raw memory object.
    pub fn memory(&self) -> (r: u64)
        ensures
            r == match self.flavor_view() {
                BlockFlavor::Dedicated(b) => b.memory_view().raw,
                BlockFlavor::Linear(b) => b.memory_view().raw,
                BlockFlavor::Dynamic(b) => b.memory_view().raw,
            },
    {
        match &self.block {
            BlockFlavor::Dedicated(b) => b.memory(),
            BlockFlavor::Linear(b) => b.memory(),
            BlockFlavor::Dynamic(b) => b.memory(),
        }
    }

    /// Get memory range owned by this block.
    pub fn range(&self) -> (r: Range<u64>)
        ensures
            r == self.flavor_view().range_view(),
    {
        match &self.block {
            BlockFlavor::Dedicated(b) => b.range(),
            BlockFlavor::Linear(b) => b.range(),
            BlockFlavor::Dynamic(b) => b.range(),
        }
    }
}

/// Heaps available on particular physical device.
pub struct Heaps {
    types: Vec<MemoryType>,
    heaps: Vec<MemoryHeap>,
}

impl Heaps {
    /// Memory types with their allocators.
    pub closed spec fn types_view(&self) -> Seq<MemoryType> {
        self.types@
    }

    /// Device heaps.
    pub closed spec fn heaps_view(&self) -> Seq<MemoryHeap> {
        self.heaps@
    }

    /// Every memory type is well-formed, allocates from the memory type of its position and
    /// draws from an existing heap, unless nothing was allocated from it, and each heap's
    /// usage is the memory held by the types that draw from it.
    pub open spec fn wf(&self) -> bool {
        &&& forall|t: int|
            0 <= t < self.types_view().len() ==> {
                &&& (#[trigger] self.types_view()[t]).wf()
                &&& self.types_view()[t].memory_type_view() == t
                &&& self.types_view()[t].heap_index_view() < self.heaps_view().len() || self.types_view()[t].untouched()
            }
        &&& forall|h: int|
            0 <= h < self.heaps_view().len() ==> (#[trigger] self.heaps_view()[h]).used_view()
                == heap_held(self.types_view(), h)
    }

    /// Heap that memory type `t` draws from.
    pub open spec fn heap_of(&self, t: int) -> MemoryHeap {
        self.heaps_view()[self.types_view()[t].heap_index_view() as int]
    }

    /// Memory type `t` is selected by `mask` and has the properties `usage` requires.
    pub open spec fn suitable<U: MemoryUsage>(&self, mask: u32, usage: U, t: int) -> bool {
        &&& 0 <= t < self.types_view().len()
        &&& mask & (1u32 << (t as u32)) != 0u32
        &&& self.types_view()[t].properties_view().spec_contains(usage.required())
    }

    /// Memory type `t` is suitable and its heap has more than `size + align` bytes available.
    pub open spec fn eligible<U: MemoryUsage>(&self, mask: u32, usage: U, size: u64, align: u64, t: int) -> bool {
        &&& self.suitable(mask, usage, t)
        &&& self.heap_of(t).size_view() - self.heap_of(t).used_view() > size + align
    }

    /// Memory type `t` is eligible with the highest fitness for `usage`, and the last such.
    pub open spec fn best<U: MemoryUsage>(&self, mask: u32, usage: U, size: u64, align: u64, t: int) -> bool {
        &&& self.eligible(mask, usage, size, align, t)
        &&& forall|u: int|
            #![trigger self.eligible(mask, usage, size, align, u)]
            self.eligible(mask, usage, size, align, u) ==> usage.fitness(
                self.types_view()[u].properties_view(),
            ) <= usage.fitness(self.types_view()[t].properties_view()) && (u > t ==> usage.fitness(
                self.types_view()[u].properties_view(),
            ) < usage.fitness(self.types_view()[t].properties_view()))
    }

    /// `block` was allocated from these heaps and not freed yet.
    pub open spec fn is_live(&self, block: &MemoryBlock) -> bool {
        &&& block.memory_index_view() < self.types_view().len()
        &&& self.types_view()[block.memory_index_view() as int].is_live(&block.flavor_view())
    }

    /// Create heaps from the memory types, each given by its properties, heap index and
    /// allocator config, and from the sizes of the heaps.
    pub fn new(
        types: Vec<(Properties, u32, HeapsConfig)>,
        heaps: Vec<u64>,
        non_coherent_atom_size: u64,
    ) -> (r: Self)
        requires
            types.len() <= u32::MAX + 1,
            forall|t: int|
                0 <= t < types.len() ==> ((#[trigger] types[t]).2.linear matches Some(c) ==> c.linear_size
                    <= usize::MAX && c.linear_size <= MAX_LINE_SIZE),
            forall|t: int|
                0 <= t < types.len() ==> ((#[trigger] types[t]).2.dynamic matches Some(c) ==> dynamic_config_ok(
                    c,
                    types[t].0,
                )),
        ensures
            r.wf(),
            r.types_view().len() == types.len(),
            r.heaps_view().len() == heaps.len(),
            forall|t: int|
                0 <= t < types.len() ==> {
                    &&& (#[trigger] r.types_view()[t]).properties_view() == types[t].0
                    &&& r.types_view()[t].heap_index_view() == types[t].1
                    &&& r.types_view()[t].held() == 0
                    &&& r.types_view()[t].linear_view() is Some <==> (types[t].0.cpu_visible
                        && types[t].2.linear is Some)
                },
            forall|h: int|
                0 <= h < heaps.len() ==> (#[trigger] r.heaps_view()[h]).size_view() == heaps[h]
                    && r.heaps_view()[h].used_view() == 0,
    {
        let mut heap_list: Vec<MemoryHeap> = Vec::new();
        let mut i: usize = 0;
        while i < heaps.len()
            invariant
                i <= heaps.len(),
                heap_list@.len() == i,
                forall|h: int|
                    0 <= h < i ==> (#[trigger] heap_list@[h]).size_view() == heaps[h]
                        && heap_list@[h].used_view() == 0,
            decreases heaps.len() - i,
        {
            heap_list.push(MemoryHeap::new(heaps[i]));
            i = i + 1;
        }
        let mut type_list: Vec<MemoryType> = Vec::new();
        let mut t: usize = 0;
        while t < types.len()
            invariant
                t <= types.len(),
                types.len() <= u32::MAX + 1,
                type_list@.len() == t,
                forall|u: int|
                    0 <= u < types.len() ==> ((#[trigger] types[u]).2.linear matches Some(c) ==> c.linear_size
                        <= usize::MAX && c.linear_size <= MAX_LINE_SIZE),
                forall|u: int|
                    0 <= u < types.len() ==> ((#[trigger] types[u]).2.dynamic matches Some(c) ==> dynamic_config_ok(
                        c,
                        types[u].0,
                    )),
                forall|u: int|
                    0 <= u < t ==> {
                        &&& (#[trigger] type_list@[u]).wf()
                        &&& type_list@[u].memory_type_view() == u
                        &&& type_list@[u].properties_view() == types[u].0
                        &&& type_list@[u].heap_index_view() == types[u].1
                        &&& type_list@[u].held() == 0
                        &&& type_list@[u].untouched()
                        &&& type_list@[u].linear_view() is Some <==> (types[u].0.cpu_visible
                            && types[u].2.linear is Some)
                    },
            decreases types.len() - t,
        {
            let (properties, heap_index, config) = types[t];
            type_list.push(
                MemoryType::new(t as u32, heap_index as usize, properties, config, non_coherent_atom_size),
            );
            t = t + 1;
        }
        let r = Heaps { types: type_list, heaps: heap_list };
        proof {
            assert forall|h: int| 0 <= h < r.heaps_view().len() implies (#[trigger] r.heaps_view()[h]).used_view()
                == heap_held(r.types_view(), h) by {
                lemma_heap_held_zero(r.types_view(), h);
            }
        }
        r
    }

    /// Allocate memory block
    /// from one of memory types specified by `mask`,
    /// for intended `usage`,
    /// with `size`
    /// and `align` requirements.
    ///
    /// Among the memory types in `mask` with the properties the usage requires, whose
    /// heap has more than `size + align` bytes available, the one the usage rates highest
    /// is chosen (the last of equally rated ones).
    pub fn allocate<D: Device, U: MemoryUsage>(
        &mut self,
        device: &D,
        mask: u32,
        usage: U,
        size: u64,
        align: u64,
    ) -> (r: Result<MemoryBlock, HeapsError>)
        requires
            old(self).wf(),
            old(self).types_view().len() <= 32,
            size + align <= u64::MAX,
            forall|t: int|
                #[trigger] old(self).suitable(mask, usage, t) ==> usage.rates(
                    old(self).types_view()[t].properties_view(),
                ) && old(self).types_view()[t].heap_index_view() < old(self).heaps_view().len() && old(self).heap_of(
                    t,
                ).used_view() <= old(self).heap_of(t).size_view(),
            forall|t: int|
                #[trigger] old(self).best(mask, usage, size, align, t) ==> old(self).types_view()[t].accepts(
                    usage,
                    size,
                    align,
                ) && old(self).heap_of(t).used_view() + old(self).types_view()[t].max_grant(size)
                    <= u64::MAX,
        ensures
            final(self).wf(),
            final(self).types_view().len() == old(self).types_view().len(),
            final(self).heaps_view().len() == old(self).heaps_view().len(),
            forall|b: MemoryBlock| old(self).is_live(&b) ==> final(self).is_live(&b),
            (forall|t: int| !old(self).suitable(mask, usage, t)) ==> r == Err::<MemoryBlock, HeapsError>(
                HeapsError::NoSuitableMemory(mask, usage.required()),
            ),
            (exists|t: int| old(self).suitable(mask, usage, t)) && (forall|t: int|
                !old(self).eligible(mask, usage, size, align, t)) ==> r == Err::<MemoryBlock, HeapsError>(
                HeapsError::AllocationError(AllocationError::OutOfMemoryError(OutOfMemoryError::OutOfDeviceMemory)),
            ),
            match r {
                Ok(block) => {
                    let t = block.memory_index_view() as int;
                    &&& old(self).best(mask, usage, size, align, t)
                    &&& final(self).is_live(&block)
                    &&& block.flavor_view().wf()
                    &&& block.flavor_view().range_view().end - block.flavor_view().range_view().start
                        == old(self).types_view()[t].granted(usage, size, align)
                    &&& block.flavor_view().properties_view() == old(self).types_view()[t].properties_view()
                    &&& block.flavor_view().kind() == old(self).types_view()[t].serving_kind(usage, size)
                    &&& is_pow2(align) && old(self).types_view()[t].aligns(usage, size, align)
                        ==> block.flavor_view().range_view().start % align == 0
                    &&& old(self).types_view()[t].acquires(&final(self).types_view()[t], &block.flavor_view(), size, align, device)
                },
                Err(e) => {
                    &&& final(self).types_view() == old(self).types_view()
                    &&& final(self).heaps_view() == old(self).heaps_view()
                    &&& e is NoSuitableMemory ==> forall|t: int| !old(self).suitable(mask, usage, t)
                },
            },
            forall|t: int|
                #[trigger] old(self).best(mask, usage, size, align, t) && old(self).types_view()[t].pool_serves(
                    usage,
                    size,
                    align,
                ) ==> r is Ok,
    {
        let required = usage.properties_required();
        let mut any_suitable = false;
        let mut best: Option<(usize, u32)> = None;
        let mut i: usize = 0;
        while i < self.types.len()
            invariant
                self.wf(),
                self == old(self),
                self.types_view().len() <= 32,
                required == usage.required(),
                size + align <= u64::MAX,
                i <= self.types_view().len(),
                forall|t: int|
                    #[trigger] self.suitable(mask, usage, t) ==> usage.rates(self.types_view()[t].properties_view())
                        && self.types_view()[t].heap_index_view() < self.heaps_view().len() && self.heap_of(
                        t,
                    ).used_view() <= self.heap_of(t).size_view(),
                any_suitable == exists|t: int| 0 <= t < i && self.suitable(mask, usage, t),
                best is None ==> forall|t: int| 0 <= t < i ==> !self.eligible(mask, usage, size, align, t),
                best matches Some((b, f)) ==> {
                    &&& b < i
                    &&& self.eligible(mask, usage, size, align, b as int)
                    &&& f == usage.fitness(self.types_view()[b as int].properties_view())
                    &&& forall|u: int|
                        0 <= u < i && self.eligible(mask, usage, size, align, u) ==> usage.fitness(
                            self.types_view()[u].properties_view(),
                        ) <= f && (u > b ==> usage.fitness(self.types_view()[u].properties_view()) < f)
                },
            decreases self.types_view().len() - i,
        {
            if mask & (1u32 << (i as u32)) != 0 {
                let properties = self.types[i].properties();
                if properties.contains(required) {
                    proof {
                        assert(self.suitable(mask, usage, i as int));
                    }
                    let fitness = usage.memory_fitness(properties);
                    any_suitable = true;
                    let h = self.types[i].heap_index();
                    if self.heaps[h].available() > size + align {
                        let replace = match best {
                            Some((_, f)) => fitness >= f,
                            None => true,
                        };
                        if replace {
                            best = Some((i, fitness));
                        }
                    }
                }
            }
            i = i + 1;
        }
        if !any_suitable {
            return Err(HeapsError::NoSuitableMemory(mask, required));
        }
        match best {
            Some((index, _)) => {
                proof {
                    assert(self.best(mask, usage, size, align, index as int));
                    assert forall|t: int| #[trigger] self.best(mask, usage, size, align, t) implies t == index as int by {
                        assert(self.eligible(mask, usage, size, align, t));
                        assert(self.eligible(mask, usage, size, align, index as int));
                    }
                }
                let r = self.allocate_from(device, index as u32, usage, size, align);
                proof {
                    if r is Ok {
                        assert(r->Ok_0.memory_index_view() == index as u32);
                    }
                }
                r
            },
            None => Err(HeapsError::AllocationError(AllocationError::OutOfMemoryError(OutOfMemoryError::OutOfDeviceMemory))),
        }
    }

    /// Allocate memory block
    /// from `memory_index` specified,
    /// for intended `usage`,
    /// with `size`
    /// and `align` requirements.
    fn allocate_from<D: Device, U: MemoryUsage>(
        &mut self,
        device: &D,
        memory_index: u32,
        usage: U,
        size: u64,
        align: u64,
    ) -> (r: Result<MemoryBlock, HeapsError>)
        requires
            old(self).wf(),
            memory_index < old(self).types_view().len(),
            old(self).types_view()[memory_index as int].heap_index_view() < old(self).heaps_view().len(),
            old(self).heap_of(memory_index as int).used_view() <= old(self).heap_of(memory_index as int).size_view(),
            old(self).types_view()[memory_index as int].accepts(usage, size, align),
            old(self).heap_of(memory_index as int).used_view() + old(self).types_view()[memory_index as int].max_grant(size)
                <= u64::MAX,
        ensures
            final(self).wf(),
            final(self).types_view().len() == old(self).types_view().len(),
            final(self).heaps_view().len() == old(self).heaps_view().len(),
            forall|b: MemoryBlock| old(self).is_live(&b) ==> final(self).is_live(&b),
            match r {
                Ok(block) => {
                    let t = memory_index as int;
                    &&& block.memory_index_view() == memory_index
                    &&& final(self).is_live(&block)
                    &&& block.flavor_view().wf()
                    &&& block.flavor_view().range_view().end - block.flavor_view().range_view().start
                        == old(self).types_view()[t].granted(usage, size, align)
                    &&& block.flavor_view().properties_view() == old(self).types_view()[t].properties_view()
                    &&& block.flavor_view().kind() == old(self).types_view()[t].serving_kind(usage, size)
                    &&& is_pow2(align) && old(self).types_view()[t].aligns(usage, size, align)
                        ==> block.flavor_view().range_view().start % align == 0
                    &&& old(self).types_view()[t].acquires(&final(self).types_view()[t], &block.flavor_view(), size, align, device)
                },
                Err(e) => {
                    &&& final(self).types_view() == old(self).types_view()
                    &&& final(self).heaps_view() == old(self).heaps_view()
                    &&& !(e is NoSuitableMemory)
                },
            },
            old(self).heap_of(memory_index as int).size_view() < old(self).heap_of(memory_index as int).used_view()
                + size ==> r == Err::<MemoryBlock, HeapsError>(
                HeapsError::AllocationError(AllocationError::OutOfMemoryError(OutOfMemoryError::OutOfDeviceMemory)),
            ),
            old(self).heap_of(memory_index as int).used_view() + size <= old(self).heap_of(memory_index as int).size_view()
                && old(self).types_view()[memory_index as int].pool_serves(usage, size, align) ==> r is Ok,
    {
        let index = memory_index as usize;
        let h = self.types[index].heap_index();
        if self.heaps[h].available() < size {
            return Err(HeapsError::AllocationError(AllocationError::OutOfMemoryError(OutOfMemoryError::OutOfDeviceMemory)));
        }
        let ghost old_types = self.types_view();
        let res = self.types[index].alloc_block(device, usage, size, align);
        proof {
            assert(self.types_view() == old_types.update(index as int, self.types_view()[index as int]));
            assert forall|hh: int| 0 <= hh < self.heaps_view().len() implies heap_held(self.types_view(), hh)
                == heap_held(old_types, hh) + if hh == h as int {
                    self.types_view()[index as int].held() - old_types[index as int].held()
                } else {
                    0
                } by {
                lemma_heap_held_update(old_types, index as int, self.types_view()[index as int], hh);
            }
        }
        match res {
            Ok((block, allocated)) => {
                proof {
                    assert forall|u: int| 0 <= u < old_types.len() implies #[trigger] old_types[u].held() >= 0 by {
                        lemma_held_nonneg(old_types[u]);
                    }
                    lemma_heap_held_bound(old_types, index as int, h as int);
                }
                self.heaps[h].used = self.heaps[h].used + allocated;
                let r = MemoryBlock { block, memory_index };
                proof {
                    assert forall|b: MemoryBlock| old(self).is_live(&b) implies self.is_live(&b) by {
                        if b.memory_index_view() != memory_index {
                            assert(self.types_view()[b.memory_index_view() as int] == old_types[b.memory_index_view() as int]);
                        }
                    }
                }
                Ok(r)
            },
            Err(e) => {
                proof {
                    assert forall|b: MemoryBlock| old(self).is_live(&b) implies self.is_live(&b) by {
                        if b.memory_index_view() != memory_index {
                            assert(self.types_view()[b.memory_index_view() as int] == old_types[b.memory_index_view() as int]);
                        }
                    }
                }
                Err(HeapsError::from(e))
            },
        }
    }

    /// Free memory block.
    ///
    /// Memory block must be allocated from this heap.
    pub fn free<D: Device>(&mut self, device: &D, block: MemoryBlock)
        requires
            old(self).wf(),
            old(self).is_live(&block),
        ensures
            final(self).wf(),
            final(self).types_view().len() == old(self).types_view().len(),
            final(self).heaps_view().len() == old(self).heaps_view().len(),
            forall|b: MemoryBlock|
                old(self).is_live(&b) && !(b.memory_index_view() == block.memory_index_view() && same_block(
                    &b.flavor_view(),
                    &block.flavor_view(),
                )) && b.flavor_view().pinned() ==> final(self).is_live(&b),
            forall|t: int|
                0 <= t < old(self).types_view().len() && t != block.memory_index_view() ==> (#[trigger] final(self).types_view()[t])
                    == old(self).types_view()[t],
            final(self).types_view()[block.memory_index_view() as int].held() <= old(self).types_view()[block.memory_index_view() as int].held(),
            ({
                let t = block.memory_index_view() as int;
                let h = old(self).types_view()[t].heap_index_view() as int;
                &&& forall|g: int|
                    0 <= g < old(self).heaps_view().len() && g != h ==> #[trigger] final(self).heaps_view()[g]
                        == old(self).heaps_view()[g]
                &&& exists|r: u64|
                    #[trigger] old(self).types_view()[t].releases(&final(self).types_view()[t], &block.flavor_view(), r, device)
                        && final(self).heaps_view()[h].used_view() == old(self).heaps_view()[h].used_view() - r
            }),
    {
        let memory_index = block.memory_index;
        let index = memory_index as usize;
        let h = self.types[index].heap_index();
        proof {
            if self.types_view()[index as int].untouched() {
                lemma_untouched_not_live(self.types_view()[index as int], block.flavor_view());
            }
        }
        let ghost old_types = self.types_view();
        let freed = self.types[index].free(device, block.block);
        proof {
            assert(self.types_view() == old_types.update(index as int, self.types_view()[index as int]));
            assert forall|u: int| 0 <= u < old_types.len() implies #[trigger] old_types[u].held() >= 0 by {
                lemma_held_nonneg(old_types[u]);
            }
            lemma_heap_held_bound(old_types, index as int, h as int);
            lemma_held_nonneg(self.types_view()[index as int]);
            assert forall|hh: int| 0 <= hh < self.heaps_view().len() implies heap_held(self.types_view(), hh)
                == heap_held(old_types, hh) + if hh == h as int {
                    self.types_view()[index as int].held() - old_types[index as int].held()
                } else {
                    0
                } by {
                lemma_heap_held_update(old_types, index as int, self.types_view()[index as int], hh);
            }
        }
        self.heaps[h].used = self.heaps[h].used - freed;
        proof {
            assert(old_types[index as int].releases(&self.types_view()[index as int], &block.flavor_view(), freed, device));
            assert(self.heaps_view()[h as int].used_view() == old(self).heaps_view()[h as int].used_view() - freed);
            assert forall|b: MemoryBlock|
                old(self).is_live(&b) && !(b.memory_index_view() == memory_index && same_block(
                    &b.flavor_view(),
                    &block.flavor_view(),
                )) && b.flavor_view().pinned() implies self.is_live(&b) by {
                if b.memory_index_view() != memory_index {
                    assert(self.types_view()[b.memory_index_view() as int] == old_types[b.memory_index_view() as int]);
                }
            }
        }
    }

    /// Dispose of allocator.
    /// Cleanup allocators before dropping.
    /// Every block must have been freed, and the dynamic allocators must have no chunks left.
    pub fn dispose<D: Device>(self, device: &D)
        requires
            self.wf(),
            forall|t: int, b: BlockFlavor| 0 <= t < self.types_view().len() ==> !#[trigger] self.types_view()[t].is_live(&b),
            forall|t: int| 0 <= t < self.types_view().len() ==> (#[trigger] self.types_view()[t]).dynamic_drained(),
        ensures
            forall|t: int|
                0 <= t < self.types_view().len() ==> ((#[trigger] self.types_view()[t]).linear_view() matches Some(l)
                    ==> released_all(device, l.memories_view())),
    {
        let ghost view = self.types_view();
        let mut types = self.types;
        proof {
            assert(types@ == view);
            assert(view.subrange(0, view.len() as int) =~= view);
        }
        while types.len() > 0
            invariant
                types@.len() <= view.len(),
                types@ == view.subrange(0, types@.len() as int),
                forall|t: int| 0 <= t < view.len() ==> (#[trigger] view[t]).wf() && view[t].dynamic_drained(),
                forall|t: int, b: BlockFlavor| 0 <= t < view.len() ==> !#[trigger] view[t].is_live(&b),
                forall|t: int|
                    types@.len() <= t < view.len() ==> ((#[trigger] view[t]).linear_view() matches Some(l)
                        ==> released_all(device, l.memories_view())),
            decreases types@.len(),
        {
            let ghost n = types@.len();
            let mt = types.pop().unwrap();
            proof {
                assert(mt == view[n - 1]);
                assert(types@ =~= view.subrange(0, n - 1));
                assert forall|b: BlockFlavor| !#[trigger] mt.is_live(&b) by {
                    assert(!view[n - 1].is_live(&b));
                }
            }
            mt.dispose(device);
        }
    }
}

} // verus!
