//! Memory object description.

use crate::memory::properties::Properties;
use vstd::prelude::*;

verus! {

/// Memory object wrapper.
/// Contains the raw handle, size and properties of the memory.
#[derive(Clone, Copy, Debug, PartialEq, Eq, Structural)]
pub struct Memory {
    /// Raw handle of the memory object.
    pub raw: u64,
    /// Size of the memory object in bytes.
    pub size: u64,
    /// Properties of the memory type the object was allocated from.
    pub properties: Properties,
    /// Atom size for flushes and invalidations of non-coherent memory.
    pub non_coherent_atom_size: u64,
}

impl Memory {
    /// Create memory from raw object.
    pub fn from_raw(raw: u64, size: u64, properties: Properties, non_coherent_atom_size: u64) -> (r: Self)
        ensures
            r == (Memory { raw, size, properties, non_coherent_atom_size }),
    {
        Memory { raw, size, properties, non_coherent_atom_size }
    }

    /// Get memory properties.
    pub fn properties(&self) -> (r: Properties)
        ensures
            r == self.properties,
    {
        self.properties
    }

    /// Get memory size.
    pub fn size(&self) -> (r: u64)
        ensures
            r == self.size,
    {
        self.size
    }

    /// Get raw memory.
    pub fn raw(&self) -> (r: u64)
        ensures
            r == self.raw,
    {
        self.raw
    }

    /// Unwrap raw memory.
    pub fn into_raw(self) -> (r: u64)
        ensures
            r == self.raw,
    {
        self.raw
    }

    /// Atom size for flushes and invalidations. Only meaningful for memory that is
    /// host-visible and not host-coherent.
    pub fn non_coherent_atom_size(&self) -> (r: u64)
        requires
            self.properties.cpu_visible && !self.properties.coherent,
        ensures
            r == self.non_coherent_atom_size,
    {
        self.non_coherent_atom_size
    }

    /// Check if this memory is host-visible and can be mapped.
    pub fn host_visible(&self) -> (r: bool)
        ensures
            r == self.properties.cpu_visible,
    {
        self.properties.contains(Properties::cpu_visible_only())
    }

    /// Check if this memory is host-coherent and doesn't require invalidating or flushing.
    pub fn host_coherent(&self) -> (r: bool)
        ensures
            r == self.properties.coherent,
    {
        self.properties.contains(Properties::coherent_only())
    }
}

} // verus!
