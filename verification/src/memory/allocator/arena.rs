//! Arena allocator: returns memory from large arenas sequentially; an arena is released
//! once the bytes freed from it reach the bytes taken from it.

use crate::memory::allocator::linear::{releasable, MAX_LINE_SIZE};
use crate::memory::device::{released_all, Device};
use crate::memory::error::{MappingError, MemoryError};
use crate::memory::mapping::{mapped_sub_range, mapping_addressable, sub_range_spec, MappedRange};
use crate::memory::memory::Memory;
use crate::memory::properties::Properties;
use crate::memory::util::{aligned, aligned_spec, is_pow2};
use std::collections::VecDeque;
use std::ops::Range;
use vstd::prelude::*;

verus! {

/// Config for `ArenaAllocator`.
#[derive(Clone, Copy, Debug)]
pub struct ArenaConfig {
    /// Size of the arena chunk.
    /// Keep it big.
    pub arena_size: u64,
}

/// Memory block allocated from `ArenaAllocator`.
#[derive(Debug)]
pub struct ArenaBlock {
    memory: Memory,
    arena_index: u64,
    ptr: usize,
    range: Range<u64>,
}

impl ArenaBlock {
    /// Memory object the block lies in.
    pub closed spec fn memory_view(&self) -> Memory {
        self.memory
    }

    /// Number of the arena the block was allocated from, counted from the allocator's start.
    pub closed spec fn index_view(&self) -> u64 {
        self.arena_index
    }

    /// Host address of the start of the block.
    pub closed spec fn ptr_view(&self) -> usize {
        self.ptr
    }

    /// Range of the block in the memory object.
    pub closed spec fn range_view(&self) -> Range<u64> {
        self.range
    }

    /// Size of the block.
    pub open spec fn size_view(&self) -> int {
        self.range_view().end - self.range_view().start
    }

    /// The block's range is valid and the host can address all of it.
    pub open spec fn wf(&self) -> bool {
        &&& self.range_view().start <= self.range_view().end
        &&& mapping_addressable(self.ptr_view(), self.range_view())
    }

    /// Get mapping for a sub-range of the block, given relative to the block's start.
    /// The block's memory must be host-visible.
    pub fn map(&self, range: Range<u64>) -> (r: Result<MappedRange, MappingError>)
        requires
            self.wf(),
            range.start <= range.end,
            self.memory_view().properties.cpu_visible,
        ensures
            match sub_range_spec(self.ptr_view(), self.range_view(), range) {
                Some((ptr, sub)) => r matches Ok(m) && m.wf() && m.base_view() == ptr && m.mapping_view() == sub
                    && m.requested_view() == sub && m.memory_view() == self.memory_view(),
                None => r == Err::<MappedRange, MappingError>(MappingError::OutOfBounds),
            },
    {
        match mapped_sub_range(self.ptr, self.range.start..self.range.end, range) {
            Some((ptr, sub)) => Ok(MappedRange::from_raw(self.memory, ptr, sub.start..sub.end, sub)),
            None => Err(MappingError::OutOfBounds),
        }
    }

    /// Release memory mapping: the block stays mapped with its arena, so nothing is done.
    pub fn unmap(&mut self)
        ensures
            *final(self) == *old(self),
    {
    }

    /// Size of the block.
    pub fn size(&self) -> (r: u64)
        requires
            self.range_view().start <= self.range_view().end,
        ensures
            r == self.size_view(),
    {
        self.range.end - self.range.start
    }

    /// Get memory properties of the block.
    pub fn properties(&self) -> (r: Properties)
        ensures
            r == self.memory_view().properties,
    {
        self.memory.properties()
    }

    /// Get raw memory object.
    pub fn memory(&self) -> (r: u64)
        ensures
            r == self.memory_view().raw,
    {
        self.memory.raw()
    }

    /// Get memory range owned by this block.
    pub fn range(&self) -> (r: Range<u64>)
        ensures
            r == self.range_view(),
    {
        self.range.start..self.range.end
    }
}

/// An arena: one memory object, mapped, from which blocks are taken in order.
#[derive(Debug)]
struct Arena {
    used: u64,
    free: u64,
    memory: Memory,
    ptr: usize,
}

/// Arena allocator that returns memory from arenas sequentially.
/// It keeps only the number of bytes allocated from and freed to each arena.
/// The front arena is released once its freed bytes reach its used bytes.
///
/// Blocks name their arena by its number counted from the allocator's start; the offset
/// counts the arenas released so far, so that a block's arena sits at its number minus the
/// offset.
pub struct ArenaAllocator {
    memory_type: u32,
    memory_properties: Properties,
    arena_size: u64,
    non_coherent_atom_size: u64,
    offset: u64,
    arenas: VecDeque<Arena>,
}

impl ArenaAllocator {
    /// Number of arenas released so far: the origin of block arena numbers.
    pub closed spec fn offset_view(&self) -> u64 {
        self.offset
    }

    /// Size of each arena.
    pub closed spec fn arena_size_view(&self) -> u64 {
        self.arena_size
    }

    /// Memory type of the arenas.
    pub closed spec fn memory_type_view(&self) -> u32 {
        self.memory_type
    }

    /// Properties of the memory type.
    pub closed spec fn memory_properties_view(&self) -> Properties {
        self.memory_properties
    }

    /// Bytes used (taken by blocks, with alignment padding) and bytes freed, per arena.
    pub closed spec fn arenas_view(&self) -> Seq<(u64, u64)> {
        self.arenas@.map_values(|a: Arena| (a.used, a.free))
    }

    /// Memory objects of the arenas.
    pub closed spec fn memories_view(&self) -> Seq<Memory> {
        self.arenas@.map_values(|a: Arena| a.memory)
    }

    /// Number of arenas held.
    pub open spec fn arena_count(&self) -> nat {
        self.arenas_view().len()
    }

    /// Device memory held by the allocator.
    pub open spec fn held(&self) -> int {
        self.arena_count() * self.arena_size_view()
    }

    /// Every arena is a mapped memory object of `arena_size` bytes, no more used than it has.
    pub closed spec fn wf(&self) -> bool {
        &&& self.arena_size <= MAX_LINE_SIZE
        &&& self.offset + self.arenas@.len() <= u64::MAX
        &&& self.arenas@.len() * self.arena_size <= u64::MAX
        &&& forall|j: int|
            0 <= j < self.arenas@.len() ==> {
                let a = #[trigger] self.arenas@[j];
                &&& a.used <= self.arena_size
                &&& a.memory.size == self.arena_size
                &&& a.memory.properties == self.memory_properties
                &&& a.memory.non_coherent_atom_size == self.non_coherent_atom_size
                &&& mapping_addressable(a.ptr, Range { start: 0, end: self.arena_size })
            }
    }

    /// Get properties required by the allocator.
    pub fn properties_required() -> (r: Properties)
        ensures
            r == Properties::spec_cpu_visible(),
    {
        Properties::cpu_visible_only()
    }

    /// Maximum allocation size.
    pub fn max_allocation(&self) -> (r: u64)
        ensures
            r == self.arena_size_view() / 2,
    {
        self.arena_size / 2
    }

    /// Create new `ArenaAllocator`
    /// for `memory_type` with `memory_properties` specified,
    /// with `ArenaConfig` provided. The memory may have no property but host visibility.
    pub fn new(
        memory_type: u32,
        memory_properties: Properties,
        config: ArenaConfig,
        non_coherent_atom_size: u64,
    ) -> (r: Self)
        requires
            Properties::spec_cpu_visible().spec_contains(memory_properties),
            config.arena_size <= usize::MAX,
            config.arena_size <= MAX_LINE_SIZE,
        ensures
            r.wf(),
            r.memory_type_view() == memory_type,
            r.memory_properties_view() == memory_properties,
            r.arena_size_view() == config.arena_size,
            r.offset_view() == 0,
            r.arena_count() == 0,
    {
        ArenaAllocator {
            memory_type,
            memory_properties,
            arena_size: config.arena_size,
            non_coherent_atom_size,
            offset: 0,
            arenas: VecDeque::new(),
        }
    }

    /// The back arena has room for `size` bytes at `align` after its used bytes.
    pub open spec fn fits_back(&self, size: u64, align: u64) -> bool {
        &&& self.arena_count() > 0
        &&& aligned_spec(self.arenas_view().last().0, align) < self.arena_size_view() - size
    }

    /// A request fits the back arena exactly when there is a arena and the request, placed at
    /// the first aligned offset after the arena's used bytes, ends strictly inside it.
    pub proof fn lemma_fits_back_meaning(&self, size: u64, align: u64)
        ensures
            self.fits_back(size, align) <==> (self.arena_count() > 0 && aligned_spec(
                self.arenas_view().last().0,
                align,
            ) + size < self.arena_size_view()),
    {
    }

    /// Allocate block of memory.
    /// On success returns allocated block and amount of memory consumed from device.
    pub fn alloc_block<D: Device>(&mut self, device: &D, size: u64, align: u64) -> (r: Result<
        (ArenaBlock, u64),
        MemoryError,
    >)
        requires
            old(self).wf(),
            size <= old(self).arena_size_view(),
            0 < align <= old(self).arena_size_view(),
            old(self).offset_view() + old(self).arena_count() < u64::MAX,
            old(self).held() + old(self).arena_size_view() <= u64::MAX,
            old(self).fits_back(size, align) ==> old(self).arenas_view().last().1 + aligned_spec(
                old(self).arenas_view().last().0,
                align,
            ) - old(self).arenas_view().last().0 <= u64::MAX,
        ensures
            final(self).wf(),
            final(self).memory_type_view() == old(self).memory_type_view(),
            final(self).memory_properties_view() == old(self).memory_properties_view(),
            final(self).arena_size_view() == old(self).arena_size_view(),
            final(self).offset_view() == old(self).offset_view(),
            old(self).arena_count() > 0 && aligned_spec(old(self).arenas_view().last().0, align) + size
                < old(self).arena_size_view() ==> (r matches Ok((block, allocated)) && allocated == 0
                && block.index_view() == old(self).offset_view() + old(self).arena_count() - 1
                && block.range_view().start == aligned_spec(old(self).arenas_view().last().0, align)
                && block.range_view().end == block.range_view().start + size),
            r matches Ok((block, allocated)) ==> (!(old(self).arena_count() > 0 && aligned_spec(
                old(self).arenas_view().last().0,
                align,
            ) + size < old(self).arena_size_view()) ==> allocated == old(self).arena_size_view()
                && block.index_view() == old(self).offset_view() + old(self).arena_count() && block.range_view()
                == (Range { start: 0u64, end: size })),
            match r {
                Ok((block, allocated)) => {
                    &&& final(self).held() == old(self).held() + allocated
                    &&& block.wf()
                    &&& block.size_view() == size
                    &&& block.memory_view().properties == old(self).memory_properties_view()
                    &&& block.range_view().end <= old(self).arena_size_view()
                    &&& is_pow2(align) ==> block.range_view().start % align == 0
                    &&& if old(self).fits_back(size, align) {
                        let j = old(self).arena_count() - 1;
                        let used = old(self).arenas_view()[j].0;
                        let freed = old(self).arenas_view()[j].1;
                        let start = aligned_spec(used, align);
                        &&& allocated == 0
                        &&& block.range_view() == (Range { start: start as u64, end: (start + size) as u64 })
                        &&& block.index_view() == old(self).offset_view() + j
                        &&& block.memory_view() == old(self).memories_view()[j]
                        &&& final(self).arenas_view() == old(self).arenas_view().update(
                            j,
                            ((start + size) as u64, (freed + start - used) as u64),
                        )
                        &&& final(self).memories_view() == old(self).memories_view()
                    } else {
                        &&& allocated == old(self).arena_size_view()
                        &&& device.grants(old(self).memory_type_view(), old(self).arena_size_view(), block.memory_view().raw)
                        &&& device.maps(
                            block.memory_view().raw,
                            Range { start: 0u64, end: old(self).arena_size_view() },
                            block.ptr_view(),
                        )
                        &&& block.range_view() == (Range { start: 0u64, end: size })
                        &&& block.index_view() == old(self).offset_view() + old(self).arena_count()
                        &&& final(self).arenas_view() == old(self).arenas_view().push((size, 0u64))
                        &&& final(self).memories_view() == old(self).memories_view().push(block.memory_view())
                        &&& block.memory_view().size == old(self).arena_size_view()
                    }
                },
                Err(_) => {
                    &&& !old(self).fits_back(size, align)
                    &&& final(self).arenas_view() == old(self).arenas_view()
                    &&& final(self).memories_view() == old(self).memories_view()
                },
            },
    {
        let count = self.arenas.len();
        if count > 0 {
            let used = self.arenas[count - 1].used;
            proof {
                let ls = self.arena_size;
                let a = align;
                let u = used;
                if u > 0 {
                    assert(((u - 1) as u64 | (a - 1) as u64) < 0x8000_0000_0000_0000u64) by (bit_vector)
                        requires
                            0 < u <= ls,
                            0 < a <= ls,
                            ls <= 0x8000_0000_0000_0000u64,
                    ;
                }
            }
            let start = aligned(used, align);
            proof {
                assert(self.arenas_view().last() == (self.arenas@[count - 1].used, self.arenas@[count - 1].free));
            }
            if self.arena_size - size > start {
                let mut arena = self.arenas.pop_back().unwrap();
                let overhead = start - arena.used;
                arena.used = start + size;
                arena.free = arena.free + overhead;
                let (ptr, range) = mapped_sub_range(arena.ptr, 0..self.arena_size, start..start + size).expect(
                    "This sub-range must fit in arena mapping",
                );
                let block = ArenaBlock { arena_index: self.offset + count as u64 - 1, memory: arena.memory, ptr, range };
                self.arenas.push_back(arena);
                proof {
                    let j = count - 1;
                    assert(self.arenas@ =~= old(self).arenas@.update(j as int, arena));
                    assert(self.arenas_view() =~= old(self).arenas_view().update(
                        j as int,
                        ((start + size) as u64, (old(self).arenas@[j as int].free + start - used) as u64),
                    ));
                    assert(self.memories_view() =~= old(self).memories_view());
                }
                return Ok((block, 0));
            }
        }
        let raw = match device.allocate(self.memory_type, self.arena_size) {
            Ok(raw) => raw,
            Err(error) => return Err(MemoryError::AllocationError(error)),
        };
        let ptr = match device.map(raw, 0..self.arena_size) {
            Ok(ptr) => ptr,
            Err(error) => {
                device.free(raw);
                return Err(MemoryError::MappingError(error));
            },
        };
        let memory = Memory::from_raw(raw, self.arena_size, self.memory_properties, self.non_coherent_atom_size);
        let arena = Arena { used: size, free: 0, ptr, memory };
        let (block_ptr, range) = mapped_sub_range(ptr, 0..self.arena_size, 0..size).expect(
            "This sub-range must fit in arena mapping",
        );
        let block = ArenaBlock { arena_index: self.offset + count as u64, memory, ptr: block_ptr, range };
        self.arenas.push_back(arena);
        proof {
            assert(self.arenas_view() =~= old(self).arenas_view().push((size, 0u64)));
            assert(self.memories_view() =~= old(self).memories_view().push(memory));
            let n = old(self).arenas@.len();
            let ls = self.arena_size;
            assert((n + 1) * ls == n * ls + ls) by (nonlinear_arith);
        }
        Ok((block, self.arena_size))
    }

    /// Release front arenas whose bytes are all freed, keeping `off` arenas.
    /// Returns the amount of memory returned to the device.
    fn cleanup<D: Device>(&mut self, device: &D, off: usize) -> (r: u64)
        requires
            old(self).wf(),
        ensures
            final(self).wf(),
            final(self).memory_type_view() == old(self).memory_type_view(),
            final(self).memory_properties_view() == old(self).memory_properties_view(),
            final(self).arena_size_view() == old(self).arena_size_view(),
            ({
                let k = releasable(old(self).arenas_view(), off as nat);
                let n = old(self).arena_count();
                &&& k <= n
                &&& final(self).offset_view() == old(self).offset_view() + k
                &&& final(self).arenas_view() == old(self).arenas_view().subrange(k as int, n as int)
                &&& final(self).memories_view() == old(self).memories_view().subrange(k as int, n as int)
                &&& released_all(device, old(self).memories_view().subrange(0, k as int))
                &&& r == k * old(self).arena_size_view()
                &&& final(self).held() == old(self).held() - r
            }),
    {
        let mut freed: u64 = 0;
        let ghost k: nat = 0;
        let ghost n = old(self).arenas@.len();
        proof {
            assert(old(self).arenas@.subrange(0, n as int) =~= old(self).arenas@);
        }
        while self.arenas.len() > off
            invariant
                self.wf(),
                self.memory_type == old(self).memory_type,
                self.memory_properties == old(self).memory_properties,
                self.arena_size == old(self).arena_size,
                self.non_coherent_atom_size == old(self).non_coherent_atom_size,
                self.offset == old(self).offset + k,
                k <= n,
                n == old(self).arenas@.len(),
                n * self.arena_size <= u64::MAX,
                self.arenas@ == old(self).arenas@.subrange(k as int, n as int),
                releasable(old(self).arenas_view(), off as nat) == k + releasable(self.arenas_view(), off as nat),
                freed == k * self.arena_size,
                released_all(device, old(self).memories_view().subrange(0, k as int)),
            ensures
                self.arenas@.len() <= off || self.arenas@[0].used > self.arenas@[0].free,
            decreases self.arenas@.len(),
        {
            if self.arenas[0].used > self.arenas[0].free {
                break;
            }
            let ghost before = self.arenas_view();
            let arena = self.arenas.pop_front().unwrap();
            self.offset = self.offset + 1;
            proof {
                assert(before.len() > off);
                assert(before[0] == (arena.used, arena.free));
                assert(before.drop_first() =~= self.arenas_view());
                assert(releasable(before, off as nat) == 1 + releasable(self.arenas_view(), off as nat));
                let ls = self.arena_size;
                let kk = k;
                assert((kk + 1) * ls == kk * ls + ls) by (nonlinear_arith);
                assert((kk + 1) * ls <= n * ls) by (nonlinear_arith)
                    requires kk + 1 <= n;
                let len = self.arenas@.len();
                assert(len * ls <= (len + 1) * ls) by (nonlinear_arith);
            }
            device.unmap(arena.memory.raw());
            freed = freed + arena.memory.size();
            device.free(arena.memory.into_raw());
            proof {
                assert(arena == old(self).arenas@[k as int]);
                let done = old(self).memories_view().subrange(0, k + 1int);
                assert forall|q: int| 0 <= q < done.len() implies device.unmaps(#[trigger] done[q].raw) && device.frees(
                    done[q].raw,
                ) by {
                    if q < k {
                        assert(done[q] == old(self).memories_view().subrange(0, k as int)[q]);
                    } else {
                        assert(done[q] == arena.memory);
                    }
                }
                assert(self.arenas@ =~= old(self).arenas@.subrange(k + 1int, n as int));
                k = k + 1;
                assert forall|j: int| 0 <= j < self.arenas@.len() implies #[trigger] self.arenas@[j]
                    == old(self).arenas@[j + k] by {}
            }
        }
        proof {
            let ls = self.arena_size;
            let kk = k;
            assert((n - kk) * ls == n * ls - kk * ls) by (nonlinear_arith);
            assert(self.arenas_view() =~= old(self).arenas_view().subrange(k as int, n as int));
            assert(self.memories_view() =~= old(self).memories_view().subrange(k as int, n as int));
        }
        freed
    }

    /// Free block of memory: its size is added to the freed bytes of the arena at position
    /// `block.index - offset`, then fully freed front arenas, but the last, are released.
    /// Returns amount of memory returned to the device.
    pub fn free<D: Device>(&mut self, device: &D, block: ArenaBlock) -> (r: u64)
        requires
            old(self).wf(),
            block.range_view().start <= block.range_view().end,
            old(self).offset_view() <= block.index_view() < old(self).offset_view() + old(self).arena_count(),
            old(self).arenas_view()[block.index_view() - old(self).offset_view()].1 + block.size_view() <= u64::MAX,
        ensures
            final(self).wf(),
            final(self).memory_type_view() == old(self).memory_type_view(),
            final(self).memory_properties_view() == old(self).memory_properties_view(),
            final(self).arena_size_view() == old(self).arena_size_view(),
            ({
                let j = block.index_view() - old(self).offset_view();
                let (used, freed) = old(self).arenas_view()[j];
                let mid = old(self).arenas_view().update(j, (used, (freed + block.size_view()) as u64));
                let k = releasable(mid, 1);
                let n = old(self).arena_count();
                &&& k <= n
                &&& final(self).offset_view() == old(self).offset_view() + k
                &&& released_all(device, old(self).memories_view().subrange(0, k as int))
                &&& final(self).arenas_view() == mid.subrange(k as int, n as int)
                &&& final(self).memories_view() == old(self).memories_view().subrange(k as int, n as int)
                &&& r == k * old(self).arena_size_view()
                &&& final(self).held() == old(self).held() - r
            }),
    {
        proof {
            assert(self.arenas_view().len() == self.arenas@.len());
            assert(self.arenas@.len() == self.arenas.len());
        }
        let index = (block.arena_index - self.offset) as usize;
        proof {
            assert(self.arenas_view()[index as int] == (self.arenas@[index as int].used, self.arenas@[index as int].free));
        }
        let mut arena = self.arenas.remove(index).unwrap();
        arena.free = arena.free + block.size();
        self.arenas.insert(index, arena);
        proof {
            assert(self.arenas@ =~= old(self).arenas@.update(index as int, arena));
            assert(self.arenas_view() =~= old(self).arenas_view().update(index as int, (arena.used, arena.free)));
            assert(self.memories_view() =~= old(self).memories_view());
        }
        self.cleanup(device, 1)
    }

    /// Perform full cleanup of the memory allocated: every arena must be fully freed.
    pub fn dispose<D: Device>(self, device: &D)
        requires
            self.wf(),
            releasable(self.arenas_view(), 0) == self.arena_count(),
        ensures
            released_all(device, self.memories_view()),
    {
        let ghost before = self;
        let mut allocator = self;
        let _ = allocator.cleanup(device, 0);
        proof {
            assert(before.memories_view().subrange(0, before.arena_count() as int) =~= before.memories_view());
        }
    }
}

} // verus!
