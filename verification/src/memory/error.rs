//! Errors of memory allocation and mapping.

use crate::memory::properties::Properties;
use crate::memory::usage::MemoryUsageValue;
use vstd::prelude::*;
use vstd::std_specs::convert::FromSpecImpl;

verus! {

/// Typical memory error - out of available memory.
#[derive(Clone, Copy, Debug, PartialEq, Eq, Structural)]
pub enum OutOfMemoryError {
    /// Host memory exhausted.
    OutOfHostMemory,
    /// Device memory exhausted.
    OutOfDeviceMemory,
    /// Allocator detects that all suitable heaps are exhausted.
    HeapsExhausted,
}

/// Possible cause of mapping failure.
#[derive(Clone, Copy, Debug, PartialEq, Eq, Structural)]
pub enum MappingError {
    /// Attempt to map memory without host-visible property.
    HostInvisible,
    /// Attempt to map memory out of bounds.
    OutOfBounds,
    /// Attempt to map memory that can't be safely mapped due to allocator limits.
    MappingUnsafe,
    /// Unable to allocate an appropriately sized contiguous virtual address range.
    MappingFailed,
    /// Out of either host or device memory.
    OutOfMemoryError(OutOfMemoryError),
    /// Attempt to interpret mapped range with wrong alignment.
    Unaligned {
        /// Alignment requirements.
        align: usize,
        /// Offset that doesn't satisfy alignment.
        offset: usize,
    },
}

/// Possible cause of allocation failure.
#[derive(Clone, Copy, Debug, PartialEq, Eq, Structural)]
pub enum AllocationError {
    /// Out of either host or device memory.
    OutOfMemoryError(OutOfMemoryError),
    /// Implementation doesn't allow to create too many objects.
    TooManyObjects,
    /// No memory types for specified mask and usage were found.
    NoSuitableMemory(u32, MemoryUsageValue),
}

/// Generic memory error.
#[derive(Clone, Copy, Debug, PartialEq, Eq, Structural)]
pub enum MemoryError {
    /// Out of either host or device memory.
    OutOfMemoryError(OutOfMemoryError),
    /// Error occurred during mapping operation.
    MappingError(MappingError),
    /// Error occurred during allocation.
    AllocationError(AllocationError),
}

/// Possible errors returned by `Heaps`.
#[derive(Clone, Copy, Debug, PartialEq, Eq, Structural)]
pub enum HeapsError {
    /// Memory allocation failure.
    AllocationError(AllocationError),
    /// No memory types among required for resource with requested properties was found.
    NoSuitableMemory(u32, Properties),
    /// Mapping a new memory object failed.
    MappingError(MappingError),
}

impl From<OutOfMemoryError> for MappingError {
    fn from(error: OutOfMemoryError) -> (r: Self) {
        MappingError::OutOfMemoryError(error)
    }
}

impl FromSpecImpl<OutOfMemoryError> for MappingError {
    open spec fn obeys_from_spec() -> bool {
        true
    }

    open spec fn from_spec(error: OutOfMemoryError) -> MappingError {
        MappingError::OutOfMemoryError(error)
    }
}

impl From<OutOfMemoryError> for AllocationError {
    fn from(error: OutOfMemoryError) -> (r: Self) {
        AllocationError::OutOfMemoryError(error)
    }
}

impl FromSpecImpl<OutOfMemoryError> for AllocationError {
    open spec fn obeys_from_spec() -> bool {
        true
    }

    open spec fn from_spec(error: OutOfMemoryError) -> AllocationError {
        AllocationError::OutOfMemoryError(error)
    }
}

impl From<OutOfMemoryError> for MemoryError {
    fn from(error: OutOfMemoryError) -> (r: Self) {
        MemoryError::OutOfMemoryError(error)
    }
}

impl FromSpecImpl<OutOfMemoryError> for MemoryError {
    open spec fn obeys_from_spec() -> bool {
        true
    }

    open spec fn from_spec(error: OutOfMemoryError) -> MemoryError {
        MemoryError::OutOfMemoryError(error)
    }
}

impl From<AllocationError> for MemoryError {
    fn from(error: AllocationError) -> (r: Self) {
        MemoryError::AllocationError(error)
    }
}

impl FromSpecImpl<AllocationError> for MemoryError {
    open spec fn obeys_from_spec() -> bool {
        true
    }

    open spec fn from_spec(error: AllocationError) -> MemoryError {
        MemoryError::AllocationError(error)
    }
}

impl From<MappingError> for MemoryError {
    fn from(error: MappingError) -> (r: Self) {
        MemoryError::MappingError(error)
    }
}

impl FromSpecImpl<MappingError> for MemoryError {
    open spec fn obeys_from_spec() -> bool {
        true
    }

    open spec fn from_spec(error: MappingError) -> MemoryError {
        MemoryError::MappingError(error)
    }
}

impl From<AllocationError> for HeapsError {
    fn from(error: AllocationError) -> (r: Self) {
        HeapsError::AllocationError(error)
    }
}

impl FromSpecImpl<AllocationError> for HeapsError {
    open spec fn obeys_from_spec() -> bool {
        true
    }

    open spec fn from_spec(error: AllocationError) -> HeapsError {
        HeapsError::AllocationError(error)
    }
}

impl From<MemoryError> for HeapsError {
    fn from(error: MemoryError) -> (r: Self) {
        match error {
            MemoryError::OutOfMemoryError(e) => HeapsError::AllocationError(AllocationError::OutOfMemoryError(e)),
            MemoryError::MappingError(e) => HeapsError::MappingError(e),
            MemoryError::AllocationError(e) => HeapsError::AllocationError(e),
        }
    }
}

impl FromSpecImpl<MemoryError> for HeapsError {
    open spec fn obeys_from_spec() -> bool {
        true
    }

    open spec fn from_spec(error: MemoryError) -> HeapsError {
        match error {
            MemoryError::OutOfMemoryError(e) => HeapsError::AllocationError(AllocationError::OutOfMemoryError(e)),
            MemoryError::MappingError(e) => HeapsError::MappingError(e),
            MemoryError::AllocationError(e) => HeapsError::AllocationError(e),
        }
    }
}

impl From<OutOfMemoryError> for HeapsError {
    fn from(error: OutOfMemoryError) -> (r: Self) {
        HeapsError::AllocationError(AllocationError::OutOfMemoryError(error))
    }
}

impl FromSpecImpl<OutOfMemoryError> for HeapsError {
    open spec fn obeys_from_spec() -> bool {
        true
    }

    open spec fn from_spec(error: OutOfMemoryError) -> HeapsError {
        HeapsError::AllocationError(AllocationError::OutOfMemoryError(error))
    }
}

} // verus!
