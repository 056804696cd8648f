//! Trait of devices that memory is allocated from and mapped by.

use crate::memory::error::{AllocationError, MappingError, OutOfMemoryError};
use crate::memory::memory::Memory;
use std::ops::Range;
use vstd::prelude::*;

verus! {

/// Trait for memory allocation and mapping, implemented by users for their device.
///
/// Memory objects are named by raw `u64` handles; mappings are given by the host
/// address at which the mapped range starts.
///
/// The spec functions name what the device was asked and what it answered: each holds
/// once the matching call was made and, for `grants`, `maps`, `invalidates` and
/// `flushes`, once the device reported success. Verified code learns one only by making
/// the call, so a contract that names one says which call was made, with which arguments.
pub trait Device {
    /// The device gave memory object `raw`, of `size` bytes of memory type `index`.
    spec fn grants(&self, index: u32, size: u64, raw: u64) -> bool;

    /// The device mapped `range` of memory object `memory` at host address `ptr`.
    spec fn maps(&self, memory: u64, range: Range<u64>, ptr: usize) -> bool;

    /// Memory object `memory` was handed back to the device.
    spec fn frees(&self, memory: u64) -> bool;

    /// The mapping of memory object `memory` was released.
    spec fn unmaps(&self, memory: u64) -> bool;

    /// `range` of memory object `memory` was invalidated.
    spec fn invalidates(&self, memory: u64, range: Range<u64>) -> bool;

    /// `range` of memory object `memory` was flushed.
    spec fn flushes(&self, memory: u64, range: Range<u64>) -> bool;

    /// Allocate a memory object of `size` bytes from memory type `index`.
    fn allocate(&self, index: u32, size: u64) -> (r: Result<u64, AllocationError>)
        ensures
            r matches Ok(raw) ==> self.grants(index, size, raw),
    ;

    /// Free memory object.
    fn free(&self, memory: u64)
        ensures
            self.frees(memory),
    ;

    /// Map `range` of the memory object to host memory and return the address of its start.
    /// A mapping is a contiguous block of the address space, so its end is addressable.
    fn map(&self, memory: u64, range: Range<u64>) -> (r: Result<usize, MappingError>)
        requires
            range.start <= range.end,
        ensures
            r matches Ok(ptr) ==> ptr + (range.end - range.start) <= usize::MAX && self.maps(memory, range, ptr),
    ;

    /// Unmap memory.
    fn unmap(&self, memory: u64)
        ensures
            self.unmaps(memory),
    ;

    /// Invalidate mapped region, making device writes visible to the host.
    fn invalidate(&self, memory: u64, range: Range<u64>) -> (r: Result<(), OutOfMemoryError>)
        ensures
            r is Ok ==> self.invalidates(memory, range),
    ;

    /// Flush mapped region, making host writes available to the device.
    fn flush(&self, memory: u64, range: Range<u64>) -> (r: Result<(), OutOfMemoryError>)
        ensures
            r is Ok ==> self.flushes(memory, range),
    ;
}

/// Each memory object of `ms` was unmapped and handed back to the device.
pub open spec fn released_all<D: Device>(device: &D, ms: Seq<Memory>) -> bool {
    forall|q: int| 0 <= q < ms.len() ==> device.unmaps(#[trigger] ms[q].raw) && device.frees(ms[q].raw)
}

} // verus!
