//! Arithmetic of mapped memory ranges and host views of mapped memory.

use crate::memory::device::Device;
use crate::memory::error::{MappingError, OutOfMemoryError};
use crate::memory::memory::Memory;
use crate::memory::util::{align_range, align_range_spec, relative_to_sub_range, relative_to_sub_range_spec};
use std::ops::Range;
use vstd::prelude::*;

verus! {

/// Address of `fitting.start` in a mapping of `range` that starts at address `ptr`,
/// provided `fitting` lies inside `range`. Offsets are in memory object space.
pub open spec fn fitting_ptr(ptr: usize, range: Range<u64>, fitting: Range<u64>) -> Option<usize> {
    if fitting.start < range.start || fitting.end > range.end {
        None
    } else {
        Some((ptr + (fitting.start - range.start)) as usize)
    }
}

/// The mapping of `range` at `ptr` can address every offset of `range`.
pub open spec fn mapping_addressable(ptr: usize, range: Range<u64>) -> bool {
    ptr + (range.end - range.start) <= usize::MAX
}

/// Get sub-range of memory mapping.
/// `range` is in memory object space.
pub fn mapped_fitting_range(ptr: usize, range: Range<u64>, fitting: Range<u64>) -> (r: Option<usize>)
    requires
        range.start <= range.end,
        fitting.start <= fitting.end,
        mapping_addressable(ptr, range),
    ensures
        r == fitting_ptr(ptr, range, fitting),
{
    if fitting.start < range.start || fitting.end > range.end {
        None
    } else {
        Some(ptr + (fitting.start - range.start) as usize)
    }
}

/// Result of `mapped_sub_range`: `sub`, given relative to `range.start`, translated to memory
/// object space, with the address of its start; `None` on overflow or when it leaves `range`.
pub open spec fn sub_range_spec(ptr: usize, range: Range<u64>, sub: Range<u64>) -> Option<(usize, Range<u64>)> {
    if sub.start + range.start > u64::MAX || sub.end + range.start > u64::MAX {
        None
    } else {
        let fitting = Range { start: (sub.start + range.start) as u64, end: (sub.end + range.start) as u64 };
        match fitting_ptr(ptr, range, fitting) {
            Some(p) => Some((p, fitting)),
            None => None,
        }
    }
}

/// A sub-range given relative to a mapped range is found exactly when it ends inside that
/// range; it then keeps its length, starts `sub.start` bytes into the range, and its address
/// is as far from the mapping's address.
pub proof fn lemma_sub_range_meaning(ptr: usize, range: Range<u64>, sub: Range<u64>)
    requires
        range.start <= range.end,
        sub.start <= sub.end,
        mapping_addressable(ptr, range),
    ensures
        sub_range_spec(ptr, range, sub) is Some <==> sub.end + range.start <= range.end,
        sub_range_spec(ptr, range, sub) matches Some((p, f)) ==> {
            &&& f.start == range.start + sub.start
            &&& f.end - f.start == sub.end - sub.start
            &&& p == ptr + sub.start
        },
{
}

/// Get sub-range of memory mapping.
/// `range` is in memory object space, `sub` is relative to `range.start`.
pub fn mapped_sub_range(ptr: usize, range: Range<u64>, sub: Range<u64>) -> (r: Option<(usize, Range<u64>)>)
    requires
        range.start <= range.end,
        sub.start <= sub.end,
        mapping_addressable(ptr, range),
    ensures
        r == sub_range_spec(ptr, range, sub),
{
    let start = match sub.start.checked_add(range.start) {
        Some(s) => s,
        None => return None,
    };
    let end = match sub.end.checked_add(range.start) {
        Some(e) => e,
        None => return None,
    };
    match mapped_fitting_range(ptr, range, start..end) {
        Some(p) => Some((p, start..end)),
        None => None,
    }
}

/// Number of elements of `elem_size` bytes that `range` holds, when mapped at `ptr`, an
/// address suitable for elements aligned to `elem_align`; else the misalignment.
pub fn mapped_slice_len(ptr: usize, range: Range<u64>, elem_size: usize, elem_align: usize) -> (r: Result<
    usize,
    MappingError,
>)
    requires
        range.start <= range.end,
        range.end - range.start <= usize::MAX,
        elem_size > 0,
        elem_align > 0,
        (range.end - range.start) % (elem_size as int) == 0,
    ensures
        ptr % elem_align != 0 ==> r == Err::<usize, MappingError>(
            MappingError::Unaligned { align: elem_align, offset: ptr },
        ),
        ptr % elem_align == 0 ==> r == Ok::<usize, MappingError>(
            ((range.end - range.start) / (elem_size as int)) as usize,
        ),
{
    let size = (range.end - range.start) as usize;
    if ptr % elem_align > 0 {
        return Err(MappingError::Unaligned { align: elem_align, offset: ptr });
    }
    Ok(size / elem_size)
}

} // verus!

verus! {

/// Non-coherent marker.
#[derive(Clone, Copy, Debug)]
pub struct NonCoherent;

/// Coherent marker.
#[derive(Clone, Copy, Debug)]
pub struct Coherent;

/// Value that contains either coherent marker or non-coherent marker.
#[derive(Clone, Copy, Debug, PartialEq, Eq, Structural)]
pub struct MaybeCoherent(pub bool);

/// Represents range of the memory mapped to the host.
#[derive(Debug)]
pub struct MappedRange {
    /// Memory object that is mapped.
    memory: Memory,
    /// Address of the start of the mapped memory.
    ptr: usize,
    /// Range of mapped memory.
    mapping_range: Range<u64>,
    /// Mapping range requested by caller. Lies inside `mapping_range`.
    requested_range: Range<u64>,
    /// Coherency marker.
    coherent: MaybeCoherent,
}

impl MappedRange {
    /// Memory object that is mapped.
    pub closed spec fn memory_view(&self) -> Memory {
        self.memory
    }

    /// Address at which `mapping_view` starts.
    pub closed spec fn base_view(&self) -> usize {
        self.ptr
    }

    /// Range that is mapped.
    pub closed spec fn mapping_view(&self) -> Range<u64> {
        self.mapping_range
    }

    /// Range requested by the caller.
    pub closed spec fn requested_view(&self) -> Range<u64> {
        self.requested_range
    }

    /// Whether the memory is coherent.
    pub closed spec fn coherent_view(&self) -> bool {
        self.coherent.0
    }

    /// The requested range lies inside the mapping, which is addressable.
    pub open spec fn wf(&self) -> bool {
        &&& self.mapping_view().start <= self.requested_view().start
        &&& self.requested_view().start <= self.requested_view().end
        &&& self.requested_view().end <= self.mapping_view().end
        &&& mapping_addressable(self.base_view(), self.mapping_view())
    }

    /// Construct mapped range from raw mapping.
    /// `memory` `mapping_range` must be mapped to host memory starting at `ptr`;
    /// `requested_range` lies inside `mapping_range`. Ranges are in memory object space.
    pub fn from_raw(
        memory: Memory,
        ptr: usize,
        mapping_range: Range<u64>,
        requested_range: Range<u64>,
    ) -> (r: Self)
        ensures
            r.memory_view() == memory,
            r.base_view() == ptr,
            r.mapping_view() == mapping_range,
            r.requested_view() == requested_range,
            r.coherent_view() == memory.properties.coherent,
    {
        let coherent = memory.host_coherent();
        MappedRange { ptr, mapping_range, requested_range, memory, coherent: MaybeCoherent(coherent) }
    }

    /// Map `range` of `memory` with `device`.
    pub fn new<D: Device>(memory: Memory, device: &D, range: Range<u64>) -> (r: Result<Self, MappingError>)
        requires
            range.start <= range.end,
        ensures
            r matches Ok(m) ==> {
                &&& m.wf()
                &&& m.memory_view() == memory
                &&& m.mapping_view() == range
                &&& m.requested_view() == range
                &&& m.coherent_view() == memory.properties.coherent
                &&& device.maps(memory.raw, range, m.base_view())
            },
    {
        let ptr = device.map(memory.raw(), range.start..range.end)?;
        Ok(Self::from_raw(memory, ptr, range.start..range.end, range))
    }

    /// Get pointer to beginning of memory region,
    /// i.e. to `range().start` offset from memory origin.
    pub fn ptr(&self) -> (r: usize)
        requires
            self.wf(),
        ensures
            Some(r) == fitting_ptr(self.base_view(), self.mapping_view(), self.requested_view()),
    {
        mapped_fitting_range(
            self.ptr,
            self.mapping_range.start..self.mapping_range.end,
            self.requested_range.start..self.requested_range.end,
        ).unwrap()
    }

    /// Get mapped range.
    pub fn range(&self) -> (r: Range<u64>)
        ensures
            r == self.requested_view(),
    {
        self.requested_range.start..self.requested_range.end
    }

    /// Whether the mapped memory is coherent, so that no flushes are needed.
    pub fn is_coherent(&self) -> (r: bool)
        ensures
            r == self.coherent_view(),
    {
        self.coherent.0
    }

    /// Region to read for `range`, given relative to the requested range: its address, its
    /// size and its range in memory object space. For non-coherent memory the range widened to
    /// the atom size is invalidated first so that device writes become visible.
    pub fn read<D: Device>(&mut self, device: &D, range: Range<u64>) -> (r: Result<
        (usize, Range<u64>),
        MappingError,
    >)
        requires
            old(self).wf(),
            range.start <= range.end,
            range.end + old(self).requested_view().start <= u64::MAX,
            !old(self).coherent_view() ==> {
                &&& old(self).memory_view().non_coherent_atom_size > 0
                &&& old(self).memory_view().properties.cpu_visible
                &&& !old(self).memory_view().properties.coherent
                &&& range.end + old(self).requested_view().start > 0
                &&& ((range.end + old(self).requested_view().start - 1)
                    / (old(self).memory_view().non_coherent_atom_size as int) + 1)
                    * old(self).memory_view().non_coherent_atom_size <= u64::MAX
            },
        ensures
            *final(self) == *old(self),
            relative_to_sub_range_spec(old(self).requested_view(), range) is None ==> r == Err::<
                (usize, Range<u64>),
                MappingError,
            >(MappingError::OutOfBounds),
            r matches Ok((ptr, sub)) ==> {
                &&& relative_to_sub_range_spec(old(self).requested_view(), range) == Some(sub)
                &&& Some(ptr) == fitting_ptr(old(self).base_view(), old(self).mapping_view(), sub)
                &&& !old(self).coherent_view() ==> device.invalidates(
                    old(self).memory_view().raw,
                    align_range_spec(sub, old(self).memory_view().non_coherent_atom_size),
                )
            },
            old(self).coherent_view() && relative_to_sub_range_spec(old(self).requested_view(), range) is Some
                ==> r is Ok,
            r == Err::<(usize, Range<u64>), MappingError>(MappingError::OutOfBounds) ==> relative_to_sub_range_spec(
                old(self).requested_view(),
                range,
            ) is None,
            r matches Err(e) ==> e == MappingError::OutOfBounds || e is OutOfMemoryError,
    {
        let sub_range = match relative_to_sub_range(
            self.requested_range.start..self.requested_range.end,
            range,
        ) {
            Some(s) => s,
            None => return Err(MappingError::OutOfBounds),
        };
        let ptr = mapped_fitting_range(
            self.ptr,
            self.mapping_range.start..self.mapping_range.end,
            sub_range.start..sub_range.end,
        ).unwrap();
        if !self.coherent.0 {
            let aligned = align_range(sub_range.start..sub_range.end, self.memory.non_coherent_atom_size());
            match device.invalidate(self.memory.raw(), aligned) {
                Ok(()) => {},
                Err(e) => return Err(MappingError::OutOfMemoryError(e)),
            }
        }
        Ok((ptr, sub_range))
    }

    /// Writer to the sub-region `range`, given relative to the requested range. For
    /// non-coherent memory the writer flushes the range widened to the atom size.
    pub fn write(&self, range: Range<u64>) -> (r: Result<MappedWrite, MappingError>)
        requires
            self.wf(),
            range.start <= range.end,
            range.end + self.requested_view().start <= u64::MAX,
            !self.coherent_view() ==> {
                &&& self.memory_view().non_coherent_atom_size > 0
                &&& self.memory_view().properties.cpu_visible
                &&& !self.memory_view().properties.coherent
                &&& range.end + self.requested_view().start > 0
                &&& ((range.end + self.requested_view().start - 1) / (self.memory_view().non_coherent_atom_size as int)
                    + 1) * self.memory_view().non_coherent_atom_size <= u64::MAX
            },
        ensures
            relative_to_sub_range_spec(self.requested_view(), range) is None ==> r == Err::<MappedWrite, MappingError>(
                MappingError::OutOfBounds,
            ),
            relative_to_sub_range_spec(self.requested_view(), range) matches Some(sub) ==> r matches Ok(w) && {
                &&& w.range_view() == sub
                &&& Some(w.ptr_view()) == fitting_ptr(self.base_view(), self.mapping_view(), sub)
                &&& w.memory_view() == self.memory_view().raw
                &&& w.flush_view() == if self.coherent_view() {
                    None
                } else {
                    Some(align_range_spec(sub, self.memory_view().non_coherent_atom_size))
                }
            },
    {
        let sub_range = match relative_to_sub_range(
            self.requested_range.start..self.requested_range.end,
            range,
        ) {
            Some(s) => s,
            None => return Err(MappingError::OutOfBounds),
        };
        let ptr = mapped_fitting_range(
            self.ptr,
            self.mapping_range.start..self.mapping_range.end,
            sub_range.start..sub_range.end,
        ).unwrap();
        let flush = if !self.coherent.0 {
            Some(align_range(sub_range.start..sub_range.end, self.memory.non_coherent_atom_size()))
        } else {
            None
        };
        Ok(MappedWrite { ptr, range: sub_range, memory: self.memory.raw(), flush })
    }

    /// Convert into mapped range with statically known coherency.
    pub fn coherent(self) -> (r: Result<MappedRange, MappedRange>)
        ensures
            self.coherent_view() ==> r == Ok::<MappedRange, MappedRange>(self),
            !self.coherent_view() ==> r == Err::<MappedRange, MappedRange>(self),
    {
        if self.coherent.0 {
            Ok(self)
        } else {
            Err(self)
        }
    }
}

/// Host region of a write to mapped memory: its address and range in memory object
/// space, and the range to flush once written when the memory is not coherent.
#[derive(Debug)]
pub struct MappedWrite {
    ptr: usize,
    range: Range<u64>,
    memory: u64,
    flush: Option<Range<u64>>,
}

impl MappedWrite {
    /// Address of the region.
    pub closed spec fn ptr_view(&self) -> usize {
        self.ptr
    }

    /// Range of the region in memory object space.
    pub closed spec fn range_view(&self) -> Range<u64> {
        self.range
    }

    /// Raw handle of the memory object written.
    pub closed spec fn memory_view(&self) -> u64 {
        self.memory
    }

    /// Range to flush once written, if the memory is not coherent.
    pub closed spec fn flush_view(&self) -> Option<Range<u64>> {
        self.flush
    }

    /// Address of the region.
    pub fn ptr(&self) -> (r: usize)
        ensures
            r == self.ptr_view(),
    {
        self.ptr
    }

    /// Range of the region in memory object space.
    pub fn range(&self) -> (r: Range<u64>)
        ensures
            r == self.range_view(),
    {
        self.range.start..self.range.end
    }

    /// Make the writes visible to the device: flush the region when the memory is not
    /// coherent; coherent memory needs nothing.
    pub fn finish<D: Device>(self, device: &D) -> (r: Result<(), OutOfMemoryError>)
        ensures
            self.flush_view() is None ==> r is Ok,
            self.flush_view() matches Some(range) ==> (r is Ok ==> device.flushes(self.memory_view(), range)),
    {
        match self.flush {
            Some(range) => device.flush(self.memory, range),
            None => Ok(()),
        }
    }
}

} // verus!
