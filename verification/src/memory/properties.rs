//! Memory property flags of a memory type.

use vstd::prelude::*;

verus! {

/// Set of properties of a memory type, one flag per property.
#[derive(Clone, Copy, Debug, PartialEq, Eq, Structural)]
pub struct Properties {
    /// Memory is fast for device access.
    pub device_local: bool,
    /// Memory can be mapped to host address space.
    pub cpu_visible: bool,
    /// Host writes and device writes are visible to each other without flushes.
    pub coherent: bool,
    /// Memory is cached on the host side.
    pub cpu_cached: bool,
    /// Memory is allocated lazily by the device.
    pub lazily_allocated: bool,
}

/// Bit of the `device_local` flag.
pub const DEVICE_LOCAL_BIT: u32 = 0x1;
/// Bit of the `cpu_visible` flag.
pub const CPU_VISIBLE_BIT: u32 = 0x2;
/// Bit of the `coherent` flag.
pub const COHERENT_BIT: u32 = 0x4;
/// Bit of the `cpu_cached` flag.
pub const CPU_CACHED_BIT: u32 = 0x8;
/// Bit of the `lazily_allocated` flag.
pub const LAZILY_ALLOCATED_BIT: u32 = 0x10;

impl Properties {
    /// `self` has every flag that `other` has.
    pub open spec fn spec_contains(self, other: Properties) -> bool {
        &&& other.device_local ==> self.device_local
        &&& other.cpu_visible ==> self.cpu_visible
        &&& other.coherent ==> self.coherent
        &&& other.cpu_cached ==> self.cpu_cached
        &&& other.lazily_allocated ==> self.lazily_allocated
    }

    /// Flags of either set.
    pub open spec fn spec_union(self, other: Properties) -> Properties {
        Properties {
            device_local: self.device_local || other.device_local,
            cpu_visible: self.cpu_visible || other.cpu_visible,
            coherent: self.coherent || other.coherent,
            cpu_cached: self.cpu_cached || other.cpu_cached,
            lazily_allocated: self.lazily_allocated || other.lazily_allocated,
        }
    }

    /// Flags of both sets.
    pub open spec fn spec_intersection(self, other: Properties) -> Properties {
        Properties {
            device_local: self.device_local && other.device_local,
            cpu_visible: self.cpu_visible && other.cpu_visible,
            coherent: self.coherent && other.coherent,
            cpu_cached: self.cpu_cached && other.cpu_cached,
            lazily_allocated: self.lazily_allocated && other.lazily_allocated,
        }
    }

    /// The empty set.
    pub open spec fn spec_empty() -> Properties {
        Properties {
            device_local: false,
            cpu_visible: false,
            coherent: false,
            cpu_cached: false,
            lazily_allocated: false,
        }
    }

    /// The set holding only `cpu_visible`.
    pub open spec fn spec_cpu_visible() -> Properties {
        Properties { cpu_visible: true, ..Properties::spec_empty() }
    }

    /// The set holding only `device_local`.
    pub open spec fn spec_device_local() -> Properties {
        Properties { device_local: true, ..Properties::spec_empty() }
    }

    /// The set holding only `coherent`.
    pub open spec fn spec_coherent() -> Properties {
        Properties { coherent: true, ..Properties::spec_empty() }
    }

    /// Numeric encoding of the flags.
    pub open spec fn spec_bits(self) -> u32 {
        ((if self.device_local { DEVICE_LOCAL_BIT } else { 0u32 })
            + (if self.cpu_visible { CPU_VISIBLE_BIT } else { 0u32 })
            + (if self.coherent { COHERENT_BIT } else { 0u32 })
            + (if self.cpu_cached { CPU_CACHED_BIT } else { 0u32 })
            + (if self.lazily_allocated { LAZILY_ALLOCATED_BIT } else { 0u32 })) as u32
    }

    /// The empty set of properties.
    pub fn empty() -> (r: Properties)
        ensures
            r == Properties::spec_empty(),
    {
        Properties {
            device_local: false,
            cpu_visible: false,
            coherent: false,
            cpu_cached: false,
            lazily_allocated: false,
        }
    }

    /// The set of all properties.
    pub fn all() -> (r: Properties)
        ensures
            r.device_local && r.cpu_visible && r.coherent && r.cpu_cached && r.lazily_allocated,
    {
        Properties {
            device_local: true,
            cpu_visible: true,
            coherent: true,
            cpu_cached: true,
            lazily_allocated: true,
        }
    }

    /// The set holding only `device_local`.
    pub fn device_local_only() -> (r: Properties)
        ensures
            r == Properties::spec_device_local(),
    {
        Properties { device_local: true, ..Properties::empty() }
    }

    /// The set holding only `cpu_visible`.
    pub fn cpu_visible_only() -> (r: Properties)
        ensures
            r == Properties::spec_cpu_visible(),
    {
        Properties { cpu_visible: true, ..Properties::empty() }
    }

    /// The set holding only `coherent`.
    pub fn coherent_only() -> (r: Properties)
        ensures
            r == Properties::spec_coherent(),
    {
        Properties { coherent: true, ..Properties::empty() }
    }

    /// Properties whose bits are set in `bits`; other bits are ignored.
    pub fn from_bits_truncate(bits: u32) -> (r: Properties)
        ensures
            r.device_local == (bits & DEVICE_LOCAL_BIT != 0),
            r.cpu_visible == (bits & CPU_VISIBLE_BIT != 0),
            r.coherent == (bits & COHERENT_BIT != 0),
            r.cpu_cached == (bits & CPU_CACHED_BIT != 0),
            r.lazily_allocated == (bits & LAZILY_ALLOCATED_BIT != 0),
    {
        Properties {
            device_local: bits & DEVICE_LOCAL_BIT != 0,
            cpu_visible: bits & CPU_VISIBLE_BIT != 0,
            coherent: bits & COHERENT_BIT != 0,
            cpu_cached: bits & CPU_CACHED_BIT != 0,
            lazily_allocated: bits & LAZILY_ALLOCATED_BIT != 0,
        }
    }

    /// Numeric encoding of the flags.
    pub fn bits(&self) -> (r: u32)
        ensures
            r == self.spec_bits(),
    {
        let mut r: u32 = 0;
        if self.device_local {
            r = r + DEVICE_LOCAL_BIT;
        }
        if self.cpu_visible {
            r = r + CPU_VISIBLE_BIT;
        }
        if self.coherent {
            r = r + COHERENT_BIT;
        }
        if self.cpu_cached {
            r = r + CPU_CACHED_BIT;
        }
        if self.lazily_allocated {
            r = r + LAZILY_ALLOCATED_BIT;
        }
        r
    }

    /// Whether `self` has every flag of `other`.
    pub fn contains(&self, other: Properties) -> (r: bool)
        ensures
            r == self.spec_contains(other),
    {
        (!other.device_local || self.device_local) && (!other.cpu_visible || self.cpu_visible)
            && (!other.coherent || self.coherent) && (!other.cpu_cached || self.cpu_cached)
            && (!other.lazily_allocated || self.lazily_allocated)
    }

    /// Flags of either set.
    pub fn union(&self, other: Properties) -> (r: Properties)
        ensures
            r == self.spec_union(other),
    {
        Properties {
            device_local: self.device_local || other.device_local,
            cpu_visible: self.cpu_visible || other.cpu_visible,
            coherent: self.coherent || other.coherent,
            cpu_cached: self.cpu_cached || other.cpu_cached,
            lazily_allocated: self.lazily_allocated || other.lazily_allocated,
        }
    }

    /// Flags of both sets.
    pub fn intersection(&self, other: Properties) -> (r: Properties)
        ensures
            r == self.spec_intersection(other),
    {
        Properties {
            device_local: self.device_local && other.device_local,
            cpu_visible: self.cpu_visible && other.cpu_visible,
            coherent: self.coherent && other.coherent,
            cpu_cached: self.cpu_cached && other.cpu_cached,
            lazily_allocated: self.lazily_allocated && other.lazily_allocated,
        }
    }
}

/// Whether memory with these properties is visible to the host but not coherent,
/// so that host access needs explicit flushes and invalidations.
pub fn is_non_coherent_visible(properties: Properties) -> (r: bool)
    ensures
        r == (properties.cpu_visible && !properties.coherent),
{
    let masked = properties.intersection(Properties::cpu_visible_only().union(Properties::coherent_only()));
    masked == Properties::cpu_visible_only()
}

} // verus!
