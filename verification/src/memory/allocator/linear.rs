//! Linear allocator: returns memory from large lines sequentially.

use crate::memory::allocator::live::{
    has_nonempty, live_bytes, lemma_live_bytes_positive, lemma_live_bytes_push, lemma_live_bytes_remove,
};
use crate::memory::device::{released_all, Device};
use crate::memory::error::{MappingError, MemoryError};
use crate::memory::mapping::{mapped_sub_range, mapping_addressable, sub_range_spec, MappedRange};
use crate::memory::memory::Memory;
use crate::memory::properties::Properties;
use crate::memory::util::{aligned, aligned_spec, fits_usize, is_pow2};
use std::collections::VecDeque;
use std::ops::Range;
use vstd::prelude::*;

verus! {

/// Largest line size: no memory object can be larger than half of the 64-bit space.
pub const MAX_LINE_SIZE: u64 = 0x8000_0000_0000_0000;

/// Config for `LinearAllocator`.
#[derive(Clone, Copy, Debug)]
pub struct LinearConfig {
    /// Size of the linear chunk.
    /// Keep it big.
    pub linear_size: u64,
}

/// Memory block allocated from `LinearAllocator`.
#[derive(Debug)]
pub struct LinearBlock {
    memory: Memory,
    linear_index: u64,
    ptr: usize,
    range: Range<u64>,
}

impl LinearBlock {
    /// Memory object the block lies in.
    pub closed spec fn memory_view(&self) -> Memory {
        self.memory
    }

    /// Number of the line the block was allocated from, counted over the allocator's life.
    pub closed spec fn index_view(&self) -> u64 {
        self.linear_index
    }

    /// Host address of the start of the block.
    pub closed spec fn ptr_view(&self) -> usize {
        self.ptr
    }

    /// Range of the block in the memory object.
    pub closed spec fn range_view(&self) -> Range<u64> {
        self.range
    }

    /// Size of the block.
    pub open spec fn size_view(&self) -> int {
        self.range_view().end - self.range_view().start
    }

    /// The block's range is valid and the host can address all of it.
    pub open spec fn wf(&self) -> bool {
        &&& self.range_view().start <= self.range_view().end
        &&& mapping_addressable(self.ptr_view(), self.range_view())
    }

    /// Get mapping for a sub-range of the block, given relative to the block's start.
    pub fn map(&self, range: Range<u64>) -> (r: Result<MappedRange, MappingError>)
        requires
            self.wf(),
            range.start < range.end,
        ensures
            !self.memory_view().properties.cpu_visible ==> r == Err::<MappedRange, MappingError>(
                MappingError::HostInvisible,
            ),
            self.memory_view().properties.cpu_visible ==> match sub_range_spec(self.ptr_view(), self.range_view(), range) {
                Some((ptr, sub)) => r matches Ok(m) && m.wf() && m.base_view() == ptr
                    && m.mapping_view() == sub && m.requested_view() == sub
                    && m.memory_view() == self.memory_view(),
                None => r == Err::<MappedRange, MappingError>(MappingError::OutOfBounds),
            },
    {
        if !self.memory.host_visible() {
            return Err(MappingError::HostInvisible);
        }
        match mapped_sub_range(self.ptr, self.range.start..self.range.end, range) {
            Some((ptr, sub)) => {
                let m = MappedRange::from_raw(self.memory, ptr, sub.start..sub.end, sub);
                Ok(m)
            },
            None => Err(MappingError::OutOfBounds),
        }
    }

    /// Release memory mapping: the block stays mapped with its line, so nothing is done.
    pub fn unmap(&mut self)
        ensures
            *final(self) == *old(self),
    {
    }

    /// Size of the block.
    pub fn size(&self) -> (r: u64)
        requires
            self.range_view().start <= self.range_view().end,
        ensures
            r == self.size_view(),
    {
        self.range.end - self.range.start
    }

    /// Get memory properties of the block.
    pub fn properties(&self) -> (r: Properties)
        ensures
            r == self.memory_view().properties,
    {
        self.memory.properties()
    }

    /// Get raw memory object.
    pub fn memory(&self) -> (r: u64)
        ensures
            r == self.memory_view().raw,
    {
        self.memory.raw()
    }

    /// Get memory range owned by this block.
    pub fn range(&self) -> (r: Range<u64>)
        ensures
            r == self.range_view(),
    {
        self.range.start..self.range.end
    }

    /// Host address of the start of the block.
    pub fn ptr(&self) -> (r: usize)
        ensures
            r == self.ptr_view(),
    {
        self.ptr
    }
}

/// A line: one memory object, mapped, from which blocks are taken in order.
#[derive(Debug)]
struct Line {
    used: u64,
    free: u64,
    memory: Memory,
    ptr: usize,
}

/// Linear allocator that return memory from chunk sequentially.
/// It keeps only number of bytes allocated from each chunk.
/// Once chunk is exhausted it is placed into list.
/// When all blocks allocated from head of that list are freed,
/// head is freed as well.
///
/// This allocator suites best short-lived types of allocations.
/// Allocation strategy requires minimal overhead and implementation is fast.
/// But holding single block will completely stop memory recycling.
pub struct LinearAllocator {
    memory_type: u32,
    memory_properties: Properties,
    linear_size: u64,
    non_coherent_atom_size: u64,
    offset: u64,
    lines: VecDeque<Line>,
    /// Ranges of the blocks that are allocated and not yet freed, per line.
    live: Ghost<Seq<Seq<(u64, u64)>>>,
}

/// Number of front lines, leaving at least `keep` lines, whose used bytes are all freed.
pub open spec fn releasable(lines: Seq<(u64, u64)>, keep: nat) -> nat
    decreases lines.len(),
{
    if lines.len() > keep && lines[0].0 <= lines[0].1 {
        1 + releasable(lines.drop_first(), keep)
    } else {
        0
    }
}

impl LinearAllocator {
    /// Number of lines that were released over the allocator's life.
    pub closed spec fn offset_view(&self) -> u64 {
        self.offset
    }

    /// Size of each line.
    pub closed spec fn linear_size_view(&self) -> u64 {
        self.linear_size
    }

    /// Memory type of the lines.
    pub closed spec fn memory_type_view(&self) -> u32 {
        self.memory_type
    }

    /// Properties of the memory type.
    pub closed spec fn memory_properties_view(&self) -> Properties {
        self.memory_properties
    }

    /// Bytes used (taken by blocks, with alignment padding) and bytes freed, per line.
    pub closed spec fn lines_view(&self) -> Seq<(u64, u64)> {
        self.lines@.map_values(|l: Line| (l.used, l.free))
    }

    /// Memory objects of the lines.
    pub closed spec fn memories_view(&self) -> Seq<Memory> {
        self.lines@.map_values(|l: Line| l.memory)
    }

    /// Ranges of the blocks allocated and not yet freed, per line.
    pub closed spec fn live_view(&self) -> Seq<Seq<(u64, u64)>> {
        self.live@
    }

    /// Number of lines held.
    pub open spec fn line_count(&self) -> nat {
        self.lines_view().len()
    }

    /// Device memory held by the allocator.
    pub open spec fn held(&self) -> int {
        self.line_count() * self.linear_size_view()
    }

    /// Position of the line of `block` in the list of lines.
    pub open spec fn line_of(&self, block: &LinearBlock) -> int {
        block.index_view() - self.offset_view()
    }

    /// `block` was allocated from this allocator and not freed yet.
    pub open spec fn is_live(&self, block: &LinearBlock) -> bool {
        let j = self.line_of(block);
        &&& 0 <= j < self.line_count()
        &&& self.live_view()[j].contains((block.range_view().start, block.range_view().end))
    }

    /// Well-formedness: every line is a mapped memory object of `linear_size` bytes
    /// whose used bytes are the freed bytes plus the bytes of its live blocks.
    pub closed spec fn wf(&self) -> bool {
        &&& self.linear_size <= MAX_LINE_SIZE
        &&& self.live@.len() == self.lines@.len()
        &&& self.offset + self.lines@.len() <= u64::MAX
        &&& self.lines@.len() * self.linear_size <= u64::MAX
        &&& forall|j: int|
            0 <= j < self.lines@.len() ==> {
                let l = #[trigger] self.lines@[j];
                &&& l.free <= l.used <= self.linear_size
                &&& l.used - l.free == live_bytes(self.live@[j])
                &&& l.memory.size == self.linear_size
                &&& l.memory.properties == self.memory_properties
                &&& l.memory.non_coherent_atom_size == self.non_coherent_atom_size
                &&& mapping_addressable(l.ptr, Range { start: 0, end: self.linear_size })
                &&& forall|k: int|
                    0 <= k < self.live@[j].len() ==> (#[trigger] self.live@[j][k]).0
                        <= self.live@[j][k].1 && self.live@[j][k].1 <= l.used
                &&& forall|k1: int, k2: int|
                    0 <= k1 < k2 < self.live@[j].len() ==> (#[trigger] self.live@[j][k1]).1 <= (
                    #[trigger] self.live@[j][k2]).0
            }
    }

    /// `after` is this allocator once `block` was freed, which returned `r` bytes: the block's
    /// bytes count as freed in its line, its range leaves the line's live blocks, and the
    /// front lines whose bytes are all freed, but the last line, are unmapped and handed
    /// back to `device`.
    pub open spec fn releases<D: Device>(&self, after: &Self, block: &LinearBlock, r: u64, device: &D) -> bool {
        let j = self.line_of(block);
        let (used, freed) = self.lines_view()[j];
        let mid = self.lines_view().update(j, (used, (freed + block.size_view()) as u64));
        let k = releasable(mid, 1);
        let n = self.line_count();
        &&& freed + block.size_view() <= used
        &&& k <= n
        &&& after.held() == self.held() - r
        &&& after.lines_view() == mid.subrange(k as int, n as int)
        &&& after.memories_view() == self.memories_view().subrange(k as int, n as int)
        &&& after.offset_view() == self.offset_view() + k
        &&& released_all(device, self.memories_view().subrange(0, k as int))
        &&& r == k * self.linear_size_view()
        &&& exists|i: int|
            0 <= i < self.live_view()[j].len() && #[trigger] self.live_view()[j][i] == (
                block.range_view().start,
                block.range_view().end,
            ) && after.live_view() == self.live_view().update(j, self.live_view()[j].remove(i)).subrange(
                k as int,
                n as int,
            )
    }

    /// Get properties required by the `LinearAllocator`.
    pub fn properties_required() -> (r: Properties)
        ensures
            r == Properties::spec_cpu_visible(),
    {
        Properties::cpu_visible_only()
    }

    /// Maximum allocation size.
    pub fn max_allocation(&self) -> (r: u64)
        ensures
            r == self.linear_size_view() / 2,
    {
        self.linear_size / 2
    }

    /// Create new `LinearAllocator`
    /// for `memory_type` with `memory_properties` specified,
    /// with `LinearConfig` provided.
    pub fn new(
        memory_type: u32,
        memory_properties: Properties,
        config: LinearConfig,
        non_coherent_atom_size: u64,
    ) -> (r: Self)
        requires
            memory_properties.cpu_visible,
            config.linear_size <= usize::MAX,
            config.linear_size <= MAX_LINE_SIZE,
        ensures
            r.wf(),
            r.memory_type_view() == memory_type,
            r.memory_properties_view() == memory_properties,
            r.linear_size_view() == config.linear_size,
            r.offset_view() == 0,
            r.line_count() == 0,
    {
        LinearAllocator {
            memory_type,
            memory_properties,
            linear_size: config.linear_size,
            non_coherent_atom_size,
            offset: 0,
            lines: VecDeque::new(),
            live: Ghost(Seq::empty()),
        }
    }

    /// The back line has room for `size` bytes at `align` after its used bytes.
    pub open spec fn fits_back(&self, size: u64, align: u64) -> bool {
        &&& self.line_count() > 0
        &&& aligned_spec(self.lines_view().last().0, align) < self.linear_size_view() - size
    }

    /// A request fits the back line exactly when there is a line and the request, placed at
    /// the first aligned offset after the line's used bytes, ends strictly inside it.
    pub proof fn lemma_fits_back_meaning(&self, size: u64, align: u64)
        ensures
            self.fits_back(size, align) <==> (self.line_count() > 0 && aligned_spec(
                self.lines_view().last().0,
                align,
            ) + size < self.linear_size_view()),
    {
    }

    /// Allocate block of memory.
    /// On success returns allocated block and amount of memory consumed from device.
    #[verifier::spinoff_prover]
    pub fn alloc_block<D: Device>(&mut self, device: &D, size: u64, align: u64) -> (r: Result<
        (LinearBlock, u64),
        MemoryError,
    >)
        requires
            old(self).wf(),
            size <= old(self).linear_size_view(),
            0 < align <= old(self).linear_size_view(),
            old(self).offset_view() + old(self).line_count() < u64::MAX,
            old(self).held() + old(self).linear_size_view() <= u64::MAX,
        ensures
            final(self).wf(),
            final(self).memory_type_view() == old(self).memory_type_view(),
            final(self).memory_properties_view() == old(self).memory_properties_view(),
            final(self).linear_size_view() == old(self).linear_size_view(),
            final(self).offset_view() == old(self).offset_view(),
            forall|b: LinearBlock| old(self).is_live(&b) ==> final(self).is_live(&b),
            old(self).line_count() > 0 && aligned_spec(old(self).lines_view().last().0, align) + size
                < old(self).linear_size_view() ==> (r matches Ok((block, allocated)) && allocated == 0
                && block.index_view() == old(self).offset_view() + old(self).line_count() - 1
                && block.range_view().start == aligned_spec(old(self).lines_view().last().0, align)
                && block.range_view().end == block.range_view().start + size),
            r matches Ok((block, allocated)) ==> (!(old(self).line_count() > 0 && aligned_spec(
                old(self).lines_view().last().0,
                align,
            ) + size < old(self).linear_size_view()) ==> allocated == old(self).linear_size_view()
                && block.index_view() == old(self).offset_view() + old(self).line_count() && block.range_view()
                == (Range { start: 0u64, end: size })),
            match r {
                Ok((block, allocated)) => {
                    &&& final(self).held() == old(self).held() + allocated
                    &&& final(self).is_live(&block)
                    &&& block.wf()
                    &&& block.size_view() == size
                    &&& block.memory_view().properties == old(self).memory_properties_view()
                    &&& block.range_view().end <= old(self).linear_size_view()
                    &&& block.memory_view() == final(self).memories_view()[final(self).line_of(&block)]
                    &&& is_pow2(align) ==> block.range_view().start % align == 0
                    &&& if old(self).fits_back(size, align) {
                        let j = old(self).line_count() - 1;
                        let used = old(self).lines_view()[j].0;
                        let freed = old(self).lines_view()[j].1;
                        let start = aligned_spec(used, align);
                        &&& allocated == 0
                        &&& block.range_view() == (Range { start: start as u64, end: (start + size) as u64 })
                        &&& block.index_view() == old(self).offset_view() + j
                        &&& final(self).lines_view() == old(self).lines_view().update(
                            j,
                            ((start + size) as u64, (freed + start - used) as u64),
                        )
                        &&& final(self).live_view() == old(self).live_view().update(
                            j,
                            old(self).live_view()[j].push((start as u64, (start + size) as u64)),
                        )
                        &&& final(self).memories_view() == old(self).memories_view()
                    } else {
                        &&& allocated == old(self).linear_size_view()
                        &&& device.grants(old(self).memory_type_view(), old(self).linear_size_view(), block.memory_view().raw)
                        &&& device.maps(
                            block.memory_view().raw,
                            Range { start: 0u64, end: old(self).linear_size_view() },
                            block.ptr_view(),
                        )
                        &&& block.range_view() == (Range { start: 0u64, end: size })
                        &&& block.index_view() == old(self).offset_view() + old(self).line_count()
                        &&& final(self).lines_view() == old(self).lines_view().push((size, 0u64))
                        &&& final(self).live_view() == old(self).live_view().push(seq![(0u64, size)])
                        &&& final(self).memories_view() == old(self).memories_view().push(
                            block.memory_view(),
                        )
                        &&& block.memory_view().size == old(self).linear_size_view()
                        &&& block.memory_view().properties == old(self).memory_properties_view()
                    }
                },
                Err(_) => {
                    &&& !old(self).fits_back(size, align)
                    &&& *final(self) == *old(self)
                    &&& final(self).lines_view() == old(self).lines_view()
                    &&& final(self).live_view() == old(self).live_view()
                    &&& final(self).memories_view() == old(self).memories_view()
                },
            },
    {
        let count = self.lines.len();
        if count > 0 {
            let used = self.lines[count - 1].used;
            proof {
                let ls = self.linear_size;
                let a = align;
                let u = used;
                if u > 0 {
                    assert(((u - 1) as u64 | (a - 1) as u64) < 0x8000_0000_0000_0000u64) by (bit_vector)
                        requires
                            0 < u <= ls,
                            0 < a <= ls,
                            ls <= 0x8000_0000_0000_0000u64,
                    ;
                }
            }
            let start = aligned(used, align);
            if self.linear_size - size > start {
                let mut line = self.lines.pop_back().unwrap();
                let overhead = start - line.used;
                line.used = start + size;
                line.free = line.free + overhead;
                let (ptr, range) = mapped_sub_range(line.ptr, 0..self.linear_size, start..start + size).expect(
                    "This sub-range must fit in line mapping",
                );
                let block = LinearBlock {
                    linear_index: self.offset + count as u64 - 1,
                    memory: line.memory,
                    ptr,
                    range,
                };
                self.lines.push_back(line);
                proof {
                    let j = count - 1;
                    let old_live = self.live@[j as int];
                    lemma_live_bytes_push(old_live, (start, (start + size) as u64));
                    self.live@ = self.live@.update(j as int, old_live.push((start, (start + size) as u64)));
                    assert(self.lines@ =~= old(self).lines@.update(j as int, line));
                    assert(self.lines_view() =~= old(self).lines_view().update(
                        j as int,
                        ((start + size) as u64, (old(self).lines@[j as int].free + start - used) as u64),
                    ));
                    assert(self.memories_view() =~= old(self).memories_view());
                    assert(self.live@[j as int].last() == (start, (start + size) as u64));
                    assert forall|b: LinearBlock| old(self).is_live(&b) implies self.is_live(&b) by {
                        let jb = old(self).line_of(&b);
                        let pair = (b.range_view().start, b.range_view().end);
                        let k = choose|k: int| 0 <= k < old(self).live@[jb].len() && old(self).live@[jb][k] == pair;
                        assert(self.live@[jb][k] == pair);
                    }
                }
                return Ok((block, 0));
            }
        }
        let raw = match device.allocate(self.memory_type, self.linear_size) {
            Ok(raw) => raw,
            Err(error) => return Err(MemoryError::AllocationError(error)),
        };
        let ptr = match device.map(raw, 0..self.linear_size) {
            Ok(ptr) => ptr,
            Err(error) => {
                device.free(raw);
                return Err(MemoryError::MappingError(error));
            },
        };
        let memory = Memory::from_raw(
            raw,
            self.linear_size,
            self.memory_properties,
            self.non_coherent_atom_size,
        );
        let line = Line { used: size, free: 0, ptr, memory };
        let (block_ptr, range) = mapped_sub_range(ptr, 0..self.linear_size, 0..size).expect(
            "This sub-range must fit in line mapping",
        );
        let block = LinearBlock {
            linear_index: self.offset + count as u64,
            memory,
            ptr: block_ptr,
            range,
        };
        self.lines.push_back(line);
        proof {
            lemma_live_bytes_push(Seq::empty(), (0u64, size));
            assert(Seq::<(u64, u64)>::empty().push((0u64, size)) =~= seq![(0u64, size)]);
            self.live@ = self.live@.push(seq![(0u64, size)]);
            assert(self.lines_view() =~= old(self).lines_view().push((size, 0u64)));
            assert(self.memories_view() =~= old(self).memories_view().push(memory));
            assert(self.live@[count as int][0] == (0u64, size));
            assert forall|b: LinearBlock| old(self).is_live(&b) implies self.is_live(&b) by {
                let jb = old(self).line_of(&b);
                assert(self.live@[jb] == old(self).live@[jb]);
            }
            let n = old(self).lines@.len();
            let ls = self.linear_size;
            assert((n + 1) * ls == n * ls + ls) by (nonlinear_arith);
        }
        Ok((block, self.linear_size))
    }

    /// Perform cleanup: release front lines whose bytes are all freed, keeping `off` lines.
    /// Returns the amount of memory returned to the device.
    fn cleanup<D: Device>(&mut self, device: &D, off: usize) -> (r: u64)
        requires
            old(self).wf(),
        ensures
            final(self).wf(),
            final(self).memory_type_view() == old(self).memory_type_view(),
            final(self).memory_properties_view() == old(self).memory_properties_view(),
            final(self).linear_size_view() == old(self).linear_size_view(),
            ({
                let k = releasable(old(self).lines_view(), off as nat);
                let n = old(self).line_count();
                &&& k <= n
                &&& final(self).lines_view() == old(self).lines_view().subrange(k as int, n as int)
                &&& final(self).live_view() == old(self).live_view().subrange(k as int, n as int)
                &&& final(self).memories_view() == old(self).memories_view().subrange(k as int, n as int)
                &&& final(self).offset_view() == old(self).offset_view() + k
                &&& released_all(device, old(self).memories_view().subrange(0, k as int))
                &&& r == k * old(self).linear_size_view()
                &&& final(self).held() == old(self).held() - r
            }),
    {
        let mut freed: u64 = 0;
        let ghost k: nat = 0;
        let ghost n = old(self).lines@.len();
        proof {
            assert(old(self).lines@.subrange(0, n as int) =~= old(self).lines@);
            assert(old(self).live@.subrange(0, n as int) =~= old(self).live@);
        }
        while self.lines.len() > off
            invariant
                self.wf(),
                self.memory_type == old(self).memory_type,
                self.memory_properties == old(self).memory_properties,
                self.linear_size == old(self).linear_size,
                self.non_coherent_atom_size == old(self).non_coherent_atom_size,
                k <= n,
                n == old(self).lines@.len(),
                n == old(self).live@.len(),
                n * self.linear_size <= u64::MAX,
                self.lines@ == old(self).lines@.subrange(k as int, n as int),
                self.live@ == old(self).live@.subrange(k as int, n as int),
                self.offset == old(self).offset + k,
                releasable(old(self).lines_view(), off as nat) == k + releasable(self.lines_view(), off as nat),
                freed == k * self.linear_size,
                released_all(device, old(self).memories_view().subrange(0, k as int)),
            ensures
                self.lines@.len() <= off || self.lines@[0].used > self.lines@[0].free,
            decreases self.lines@.len(),
        {
            if self.lines[0].used > self.lines[0].free {
                break;
            }
            let ghost before = self.lines_view();
            let line = self.lines.pop_front().unwrap();
            proof {
                assert(before.len() > off);
                assert(before[0] == (line.used, line.free));
                assert(before.drop_first() =~= self.lines_view());
                assert(releasable(before, off as nat) == 1 + releasable(self.lines_view(), off as nat));
                let ls = self.linear_size;
                let kk = k;
                assert((kk + 1) * ls == kk * ls + ls) by (nonlinear_arith);
                assert((kk + 1) * ls <= n * ls) by (nonlinear_arith)
                    requires kk + 1 <= n;
                let len = self.lines@.len();
                assert(len * ls <= (len + 1) * ls) by (nonlinear_arith);
            }
            self.offset = self.offset + 1;
            device.unmap(line.memory.raw());
            freed = freed + line.memory.size();
            device.free(line.memory.into_raw());
            proof {
                assert(line == old(self).lines@[k as int]);
                let done = old(self).memories_view().subrange(0, k + 1int);
                assert forall|q: int| 0 <= q < done.len() implies device.unmaps(#[trigger] done[q].raw) && device.frees(
                    done[q].raw,
                ) by {
                    if q < k {
                        assert(done[q] == old(self).memories_view().subrange(0, k as int)[q]);
                    } else {
                        assert(done[q] == line.memory);
                    }
                }
                self.live@ = self.live@.drop_first();
                assert(self.lines@ =~= old(self).lines@.subrange(k + 1int, n as int));
                assert(self.live@ =~= old(self).live@.subrange(k + 1int, n as int));
                k = k + 1;
                assert forall|j: int| 0 <= j < self.lines@.len() implies #[trigger] self.lines@[j]
                    == old(self).lines@[j + k] && self.live@[j] == old(self).live@[j + k] by {}
            }
        }
        proof {
            let ls = self.linear_size;
            let kk = k;
            assert((n - kk) * ls == n * ls - kk * ls) by (nonlinear_arith);
            assert(self.lines_view() =~= old(self).lines_view().subrange(k as int, n as int));
            assert(self.memories_view() =~= old(self).memories_view().subrange(k as int, n as int));
        }
        freed
    }

    /// Free block of memory.
    /// Returns amount of memory returned to the device.
    #[verifier::spinoff_prover]
    pub fn free<D: Device>(&mut self, device: &D, block: LinearBlock) -> (r: u64)
        requires
            old(self).wf(),
            old(self).is_live(&block),
        ensures
            final(self).wf(),
            final(self).memory_type_view() == old(self).memory_type_view(),
            final(self).memory_properties_view() == old(self).memory_properties_view(),
            final(self).linear_size_view() == old(self).linear_size_view(),
            forall|b: LinearBlock|
                old(self).is_live(&b) && (b.index_view() != block.index_view() || b.range_view()
                    != block.range_view()) && b.range_view().start < b.range_view().end ==> final(self).is_live(&b),
            old(self).releases(&*final(self), &block, r, device),
    {
        let index = block.linear_index - self.offset;
        proof {
            assert(self.lines_view().len() == self.lines@.len());
            assert(self.lines@.len() == self.lines.len());
        }
        let index = index as usize;
        let ghost j = index as int;
        let ghost i = choose|i: int|
            0 <= i < self.live@[j].len() && self.live@[j][i] == (block.range.start, block.range.end);
        proof {
            let l = self.lines@[j];
            lemma_live_bytes_remove(self.live@[j], i);
            assert forall|k: int| 0 <= k < self.live@[j].remove(i).len() implies
                (#[trigger] self.live@[j].remove(i)[k]).0 <= self.live@[j].remove(i)[k].1 by {
                if k < i {
                    assert(self.live@[j].remove(i)[k] == self.live@[j][k]);
                } else {
                    assert(self.live@[j].remove(i)[k] == self.live@[j][k + 1]);
                }
            }
            lemma_live_bytes_positive(self.live@[j].remove(i));
        }
        let mut line = self.lines.remove(index).unwrap();
        line.free = line.free + block.size();
        self.lines.insert(index, line);
        proof {
            self.live@ = self.live@.update(j, self.live@[j].remove(i));
            assert(self.lines@ =~= old(self).lines@.update(j, line));
            assert(self.lines_view() =~= old(self).lines_view().update(
                j,
                (line.used, line.free),
            ));
            assert(self.memories_view() =~= old(self).memories_view());
            let nl = self.live@[j];
            let ol = old(self).live@[j];
            assert(line.used - line.free == live_bytes(nl));
            assert forall|k: int| 0 <= k < nl.len() implies (#[trigger] nl[k]).0 <= nl[k].1 && nl[k].1
                <= line.used by {
                if k < i {
                    assert(nl[k] == ol[k]);
                } else {
                    assert(nl[k] == ol[k + 1]);
                }
            }
            assert forall|k1: int, k2: int| 0 <= k1 < k2 < nl.len() implies (#[trigger] nl[k1]).1 <= (
            #[trigger] nl[k2]).0 by {
                let a = if k1 < i { k1 } else { k1 + 1 };
                let b = if k2 < i { k2 } else { k2 + 1 };
                assert(nl[k1] == ol[a]);
                assert(nl[k2] == ol[b]);
                assert(ol[a].1 <= ol[b].0);
            }
            assert forall|j2: int| 0 <= j2 < self.lines@.len() && j2 != j implies #[trigger] self.lines@[j2]
                == old(self).lines@[j2] && self.live@[j2] == old(self).live@[j2] by {}
            assert(self.wf());
        }
        let ghost mid = *self;
        let r = self.cleanup(device, 1);
        proof {
            assert forall|b: LinearBlock|
                old(self).is_live(&b) && (b.index_view() != block.index_view() || b.range_view()
                    != block.range_view()) && b.range_view().start < b.range_view().end implies self.is_live(&b) by {
                let jb = old(self).line_of(&b);
                let pair = (b.range_view().start, b.range_view().end);
                let kb = choose|kb: int| 0 <= kb < old(self).live@[jb].len() && old(self).live@[jb][kb] == pair;
                if jb == j {
                    if kb < i {
                        assert(mid.live@[jb][kb] == pair);
                    } else {
                        assert(kb != i);
                        assert(mid.live@[jb][kb - 1] == pair);
                    }
                } else {
                    assert(mid.live@[jb][kb] == pair);
                }
                assert(has_nonempty(mid.live_view()[jb]));
                lemma_live_block_stops_release(&mid, jb, 1);
                let k = releasable(mid.lines_view(), 1);
                assert(self.live@[jb - k] == mid.live@[jb]);
            }
        }
        r
    }

    /// Perform full cleanup of the memory allocated.
    pub fn dispose<D: Device>(self, device: &D)
        requires
            self.wf(),
        ensures
            released_all(device, self.memories_view().subrange(0, releasable(self.lines_view(), 0) as int)),
            (forall|b: LinearBlock| !self.is_live(&b)) ==> released_all(device, self.memories_view()),
    {
        let ghost before = self;
        let mut allocator = self;
        let _ = allocator.cleanup(device, 0);
        proof {
            if forall|b: LinearBlock| !before.is_live(&b) {
                lemma_no_live_releases_all(&before);
                assert(before.memories_view().subrange(0, before.line_count() as int) =~= before.memories_view());
            }
        }
    }
}

/// Two live blocks of one line do not overlap: blocks are taken in order from the line's
/// unused bytes.
pub proof fn lemma_live_blocks_disjoint(a: &LinearAllocator, b1: &LinearBlock, b2: &LinearBlock)
    requires
        a.wf(),
        a.is_live(b1),
        a.is_live(b2),
        b1.index_view() == b2.index_view(),
        b1.range_view() != b2.range_view(),
    ensures
        b1.range_view().end <= b2.range_view().start || b2.range_view().end <= b1.range_view().start,
{
    let j = a.line_of(b1);
    let s = a.live_view()[j];
    let p1 = (b1.range_view().start, b1.range_view().end);
    let p2 = (b2.range_view().start, b2.range_view().end);
    let k1 = choose|k: int| 0 <= k < s.len() && s[k] == p1;
    let k2 = choose|k: int| 0 <= k < s.len() && s[k] == p2;
    assert(a.lines_view().len() == a.lines@.len());
    assert(0 <= j < a.lines@.len());
    let l = a.lines@[j];
    assert(s == a.live@[j]);
    if k1 < k2 {
        assert(s[k1].1 <= s[k2].0);
    } else if k2 < k1 {
        assert(s[k2].1 <= s[k1].0);
    } else {
        assert(p1 == p2);
    }
}

/// With no live block, every line is released by a full cleanup.
pub proof fn lemma_no_live_releases_all(a: &LinearAllocator)
    requires
        a.wf(),
        forall|b: LinearBlock| !a.is_live(&b),
    ensures
        releasable(a.lines_view(), 0) == a.line_count(),
{
    assert forall|j: int| 0 <= j < a.line_count() implies (#[trigger] a.lines_view()[j]).0 <= a.lines_view()[j].1 by {
        lemma_line_unused_iff_no_live_blocks(a, j);
        if has_nonempty(a.live_view()[j]) {
            let k = choose|k: int| 0 <= k < a.live_view()[j].len() && (#[trigger] a.live_view()[j][k]).0 < a.live_view()[j][k].1;
            let pair = a.live_view()[j][k];
            let b = LinearBlock {
                memory: a.memories_view()[j],
                linear_index: (a.offset_view() + j) as u64,
                ptr: 0,
                range: Range { start: pair.0, end: pair.1 },
            };
            assert(a.live_view()[j].contains(pair));
            assert(a.is_live(&b));
        }
    }
    lemma_releasable_all(a.lines_view());
}

/// Lines whose used bytes are all freed are all released when none is kept.
proof fn lemma_releasable_all(lines: Seq<(u64, u64)>)
    requires
        forall|j: int| 0 <= j < lines.len() ==> (#[trigger] lines[j]).0 <= lines[j].1,
    ensures
        releasable(lines, 0) == lines.len(),
    decreases lines.len(),
{
    if lines.len() > 0 {
        assert forall|j: int| 0 <= j < lines.drop_first().len() implies (#[trigger] lines.drop_first()[j]).0
            <= lines.drop_first()[j].1 by {
            assert(lines.drop_first()[j] == lines[j + 1]);
        }
        lemma_releasable_all(lines.drop_first());
    }
}

/// A line's used bytes are all freed exactly when none of its live blocks holds a byte.
pub proof fn lemma_line_unused_iff_no_live_blocks(a: &LinearAllocator, j: int)
    requires
        a.wf(),
        0 <= j < a.line_count(),
    ensures
        (a.lines_view()[j].0 <= a.lines_view()[j].1) == !has_nonempty(a.live_view()[j]),
{
    let l = a.lines@[j];
    lemma_live_bytes_positive(a.live@[j]);
}

/// Holding a single block stops recycling: no line at or after a line with a live block
/// of at least one byte is released by a cleanup.
pub proof fn lemma_live_block_stops_release(a: &LinearAllocator, j: int, keep: nat)
    requires
        a.wf(),
        0 <= j < a.line_count(),
        has_nonempty(a.live_view()[j]),
    ensures
        releasable(a.lines_view(), keep) <= j,
{
    lemma_releasable_stops(a.lines_view(), keep, j, a);
}

proof fn lemma_releasable_stops(lines: Seq<(u64, u64)>, keep: nat, j: int, a: &LinearAllocator)
    requires
        a.wf(),
        0 <= j < lines.len(),
        lines.len() <= a.line_count(),
        lines =~= a.lines_view().subrange(a.line_count() - lines.len(), a.line_count() as int),
        has_nonempty(a.live_view()[a.line_count() - lines.len() + j]),
    ensures
        releasable(lines, keep) <= j,
    decreases lines.len(),
{
    let base = a.line_count() - lines.len();
    lemma_line_unused_iff_no_live_blocks(a, base + j);
    if j > 0 && lines.len() > keep && lines[0].0 <= lines[0].1 {
        assert(lines.drop_first() =~= a.lines_view().subrange(base + 1, a.line_count() as int));
        lemma_releasable_stops(lines.drop_first(), keep, j - 1, a);
    }
}

} // verus!
