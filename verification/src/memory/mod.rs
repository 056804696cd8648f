//! GPU memory management.

pub mod device;
pub mod error;
pub mod allocator;
pub mod heaps;
pub mod mapping;
pub mod memory;
pub mod properties;
pub mod usage;
pub mod util;
pub mod utilization;
