//! Dedicated allocator: one memory object per allocation.

use crate::memory::device::Device;
use crate::memory::error::{MappingError, MemoryError};
use crate::memory::mapping::{fitting_ptr, mapped_fitting_range, mapping_addressable, MappedRange};
use crate::memory::memory::Memory;
use crate::memory::properties::Properties;
use std::ops::Range;
use vstd::prelude::*;

verus! {

/// Memory block allocated from `DedicatedAllocator`.
#[derive(Debug)]
pub struct DedicatedBlock {
    memory: Memory,
    mapping: Option<(usize, Range<u64>)>,
}

impl DedicatedBlock {
    /// Memory object of the block.
    pub closed spec fn memory_view(&self) -> Memory {
        self.memory
    }

    /// Current mapping of the block: its address and range.
    pub closed spec fn mapping_view(&self) -> Option<(usize, Range<u64>)> {
        self.mapping
    }

    /// The current mapping, if any, is a valid range that the host can address.
    pub open spec fn wf(&self) -> bool {
        self.mapping_view() matches Some((ptr, range)) ==> {
            &&& range.start <= range.end
            &&& mapping_addressable(ptr, range)
        }
    }

    /// Size of the block.
    pub open spec fn size_view(&self) -> int {
        self.memory_view().size as int
    }

    /// Get inner memory. The block must not be mapped.
    pub fn unwrap_memory(self) -> (r: Memory)
        requires
            self.mapping_view() is None,
        ensures
            r == self.memory_view(),
    {
        self.memory
    }

    /// Make unmapped block.
    pub fn from_memory(memory: Memory) -> (r: Self)
        ensures
            r.memory_view() == memory,
            r.mapping_view() is None,
            r.wf(),
    {
        DedicatedBlock { memory, mapping: None }
    }

    /// Size of the block.
    pub fn size(&self) -> (r: u64)
        ensures
            r == self.size_view(),
    {
        self.memory.size()
    }

    /// Get memory properties of the block.
    pub fn properties(&self) -> (r: Properties)
        ensures
            r == self.memory_view().properties,
    {
        self.memory.properties()
    }

    /// Get raw memory object.
    pub fn memory(&self) -> (r: u64)
        ensures
            r == self.memory_view().raw,
    {
        self.memory.raw()
    }

    /// Get memory range owned by this block: the whole memory object.
    pub fn range(&self) -> (r: Range<u64>)
        ensures
            r == (Range { start: 0u64, end: self.memory_view().size }),
    {
        0..self.memory.size()
    }

    /// Get mapping for the range. An existing mapping that covers the range is reused;
    /// otherwise the block is unmapped and the range is mapped anew.
    pub fn map<D: Device>(&mut self, device: &D, range: Range<u64>) -> (r: Result<MappedRange, MappingError>)
        requires
            old(self).wf(),
            range.start <= range.end,
        ensures
            final(self).wf(),
            final(self).memory_view() == old(self).memory_view(),
            !old(self).memory_view().properties.cpu_visible ==> {
                &&& r == Err::<MappedRange, MappingError>(MappingError::HostInvisible)
                &&& final(self).mapping_view() == old(self).mapping_view()
            },
            old(self).memory_view().properties.cpu_visible ==> match old(self).mapping_view() {
                Some((ptr, mapped)) if fitting_ptr(ptr, mapped, range) is Some => {
                    &&& final(self).mapping_view() == old(self).mapping_view()
                    &&& r matches Ok(m) && m.wf() && m.memory_view() == old(self).memory_view()
                        && m.requested_view() == range && m.mapping_view() == range
                        && Some(m.base_view()) == fitting_ptr(ptr, mapped, range)
                },
                _ => match r {
                    Ok(m) => {
                        &&& device.maps(old(self).memory_view().raw, range, m.base_view())
                        &&& m.wf()
                        &&& m.memory_view() == old(self).memory_view()
                        &&& m.requested_view() == range
                        &&& m.mapping_view() == range
                        &&& final(self).mapping_view() == Some((m.base_view(), range))
                    },
                    Err(_) => final(self).mapping_view() is None,
                },
            },
    {
        if !self.memory.host_visible() {
            return Err(MappingError::HostInvisible);
        }
        if let Some((ptr, mapped)) = &self.mapping {
            if let Some(p) = mapped_fitting_range(*ptr, mapped.start..mapped.end, range.start..range.end) {
                let m = MappedRange::from_raw(self.memory, p, range.start..range.end, range);
                proof {
                    let rr = m.mapping_view();
                    assert(p + (rr.end - rr.start) <= usize::MAX);
                }
                return Ok(m);
            }
        }
        self.unmap(device);
        let mapping = MappedRange::new(self.memory, device, range.start..range.end)?;
        self.mapping = Some((mapping.ptr(), range));
        Ok(mapping)
    }

    /// Release memory mapping. No-op if block is not mapped.
    pub fn unmap<D: Device>(&mut self, device: &D)
        requires
            old(self).wf(),
        ensures
            final(self).wf(),
            final(self).memory_view() == old(self).memory_view(),
            final(self).mapping_view() is None,
            old(self).mapping_view() is Some ==> device.unmaps(old(self).memory_view().raw),
    {
        if self.mapping.take().is_some() {
            device.unmap(self.memory.raw());
        }
    }
}

} // verus!

verus! {

/// Total size of the memory objects of `s`.
pub open spec fn memory_bytes(s: Seq<Memory>) -> int
    decreases s.len(),
{
    if s.len() == 0 {
        0
    } else {
        memory_bytes(s.drop_last()) + s.last().size
    }
}

proof fn lemma_memory_bytes_remove(s: Seq<Memory>, k: int)
    requires
        0 <= k < s.len(),
    ensures
        memory_bytes(s.remove(k)) == memory_bytes(s) - s[k].size,
    decreases s.len(),
{
    if k == s.len() - 1 {
        assert(s.remove(k) =~= s.drop_last());
    } else {
        lemma_memory_bytes_remove(s.drop_last(), k);
        assert(s.remove(k).drop_last() =~= s.drop_last().remove(k));
        assert(s.remove(k).last() == s.last());
    }
}

proof fn lemma_memory_bytes_nonneg(s: Seq<Memory>)
    ensures
        memory_bytes(s) >= 0,
    decreases s.len(),
{
    if s.len() > 0 {
        lemma_memory_bytes_nonneg(s.drop_last());
    }
}

/// Dedicated memory allocator that uses memory object per allocation requested.
///
/// This allocator suites best huge allocations.
/// From 32 MiB when GPU has 4-8 GiB memory total.
///
/// `Heaps` use this allocator when none of sub-allocators bound to the memory type
/// can handle size required.
pub struct DedicatedAllocator {
    memory_type: u32,
    memory_properties: Properties,
    non_coherent_atom_size: u64,
    used: u64,
    /// Memory objects of the blocks allocated and not yet freed.
    live: Ghost<Seq<Memory>>,
}

impl DedicatedAllocator {
    /// Memory type the allocator allocates from.
    pub closed spec fn memory_type_view(&self) -> u32 {
        self.memory_type
    }

    /// Properties of the memory type.
    pub closed spec fn memory_properties_view(&self) -> Properties {
        self.memory_properties
    }

    /// Memory held by the allocator.
    pub closed spec fn used_view(&self) -> u64 {
        self.used
    }

    /// Memory objects of the live blocks.
    pub closed spec fn live_view(&self) -> Seq<Memory> {
        self.live@
    }

    /// Device memory held by the allocator.
    pub open spec fn held(&self) -> int {
        self.used_view() as int
    }

    /// `block` was allocated from this allocator and not freed yet.
    pub open spec fn is_live(&self, block: &DedicatedBlock) -> bool {
        self.live_view().contains(block.memory_view())
    }

    /// The memory held is the total size of the live blocks.
    pub closed spec fn wf(&self) -> bool {
        self.used == memory_bytes(self.live@)
    }

    /// `after` is this allocator once `block` was freed, which returned `r` bytes: the block's
    /// size, with one entry of its memory object taken off the live blocks.
    pub open spec fn releases(&self, after: &Self, block: &DedicatedBlock, r: u64) -> bool {
        &&& r == block.size_view()
        &&& after.held() == self.held() - r
        &&& exists|i: int|
            0 <= i < self.live_view().len() && #[trigger] self.live_view()[i] == block.memory_view()
                && after.live_view() == self.live_view().remove(i)
    }

    /// Get properties required by the allocator.
    pub fn properties_required() -> (r: Properties)
        ensures
            r == Properties::spec_empty(),
    {
        Properties::empty()
    }

    /// Create new `DedicatedAllocator`
    /// for `memory_type` with `memory_properties` specified.
    pub fn new(memory_type: u32, memory_properties: Properties, non_coherent_atom_size: u64) -> (r: Self)
        ensures
            r.wf(),
            r.memory_type_view() == memory_type,
            r.memory_properties_view() == memory_properties,
            r.held() == 0,
            r.live_view() == Seq::<Memory>::empty(),
    {
        DedicatedAllocator {
            memory_type,
            memory_properties,
            non_coherent_atom_size,
            used: 0,
            live: Ghost(Seq::empty()),
        }
    }

    /// Allocate block of memory: a memory object of `size` bytes of its own.
    /// On success returns allocated block and amount of memory consumed from device.
    pub fn alloc_block<D: Device>(&mut self, device: &D, size: u64, align: u64) -> (r: Result<
        (DedicatedBlock, u64),
        MemoryError,
    >)
        requires
            old(self).wf(),
            old(self).held() + size <= u64::MAX,
        ensures
            final(self).wf(),
            final(self).memory_type_view() == old(self).memory_type_view(),
            final(self).memory_properties_view() == old(self).memory_properties_view(),
            forall|b: DedicatedBlock| old(self).is_live(&b) ==> final(self).is_live(&b),
            match r {
                Ok((block, allocated)) => {
                    &&& allocated == size
                    &&& device.grants(old(self).memory_type_view(), size, block.memory_view().raw)
                    &&& block.wf()
                    &&& block.mapping_view() is None
                    &&& block.memory_view().size == size
                    &&& block.memory_view().properties == old(self).memory_properties_view()
                    &&& final(self).live_view() == old(self).live_view().push(block.memory_view())
                    &&& final(self).held() == old(self).held() + size
                    &&& final(self).is_live(&block)
                },
                Err(e) => {
                    &&& e is AllocationError
                    &&& *final(self) == *old(self)
                    &&& final(self).live_view() == old(self).live_view()
                    &&& final(self).held() == old(self).held()
                },
            },
    {
        let raw = match device.allocate(self.memory_type, size) {
            Ok(raw) => raw,
            Err(error) => return Err(MemoryError::AllocationError(error)),
        };
        let memory = Memory::from_raw(raw, size, self.memory_properties, self.non_coherent_atom_size);
        self.used = self.used + size;
        proof {
            self.live@ = self.live@.push(memory);
            assert(self.live@.drop_last() =~= old(self).live@);
            assert(self.live@[self.live@.len() - 1] == memory);
            assert forall|b: DedicatedBlock| old(self).is_live(&b) implies self.is_live(&b) by {
                let k = choose|k: int| 0 <= k < old(self).live@.len() && old(self).live@[k] == b.memory_view();
                assert(self.live@[k] == b.memory_view());
            }
        }
        Ok((DedicatedBlock::from_memory(memory), size))
    }

    /// Free block of memory: unmap it and return its memory object to the device.
    /// Returns amount of memory returned to the device.
    pub fn free<D: Device>(&mut self, device: &D, block: DedicatedBlock) -> (r: u64)
        requires
            old(self).wf(),
            old(self).is_live(&block),
            block.wf(),
        ensures
            final(self).wf(),
            final(self).memory_type_view() == old(self).memory_type_view(),
            final(self).memory_properties_view() == old(self).memory_properties_view(),
            old(self).releases(&*final(self), &block, r),
            device.frees(block.memory_view().raw),
            block.mapping_view() is Some ==> device.unmaps(block.memory_view().raw),
            forall|b: DedicatedBlock|
                old(self).is_live(&b) && b.memory_view() != block.memory_view() ==> final(self).is_live(&b),
    {
        let ghost i = choose|i: int| 0 <= i < self.live@.len() && self.live@[i] == block.memory;
        proof {
            lemma_memory_bytes_remove(self.live@, i);
            lemma_memory_bytes_nonneg(self.live@.remove(i));
        }
        let mut block = block;
        block.unmap(device);
        let size = block.memory.size();
        self.used = self.used - size;
        device.free(block.memory.into_raw());
        proof {
            self.live@ = self.live@.remove(i);
            assert(old(self).live_view()[i] == block.memory_view());
            assert forall|b: DedicatedBlock|
                old(self).is_live(&b) && b.memory_view() != block.memory_view() implies self.is_live(&b) by {
                let k = choose|k: int| 0 <= k < old(self).live@.len() && old(self).live@[k] == b.memory_view();
                if k < i {
                    assert(self.live@[k] == b.memory_view());
                } else {
                    assert(self.live@[k - 1] == b.memory_view());
                }
            }
        }
        size
    }
}

} // verus!
