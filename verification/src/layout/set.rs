//! Descriptor set layouts.

use crate::layout::descriptor::DescriptorType;
use crate::layout::shaders::ShaderStageFlags;
use vstd::prelude::*;

verus! {

/// Flags to control descriptor set layout creation.
#[derive(Clone, Copy, Debug, PartialEq, Eq, Structural, Hash)]
pub struct DescriptorSetLayoutCreateFlags {
    bits: u32,
}

impl DescriptorSetLayoutCreateFlags {
    /// Raw bits of the flags.
    pub closed spec fn bits_view(&self) -> u32 {
        self.bits
    }

    /// No flag.
    pub fn empty() -> (r: Self)
        ensures
            r.bits_view() == 0,
    {
        DescriptorSetLayoutCreateFlags { bits: 0 }
    }

    /// Sets with this layout must not be allocated from pool.
    /// Descriptors are instead pushed by `command::Buffer::push_descriptor_set`.
    pub fn push_descriptor() -> (r: Self)
        ensures
            r.bits_view() == 0x1,
    {
        DescriptorSetLayoutCreateFlags { bits: 0x1 }
    }

    /// Descriptor sets must be allocated from pool
    /// with `UPDATE_AFTER_BIND_BIT` bit set.
    pub fn update_after_bind_pool() -> (r: Self)
        ensures
            r.bits_view() == 0x2,
    {
        DescriptorSetLayoutCreateFlags { bits: 0x2 }
    }

    /// Raw bits of the flags.
    pub fn bits(&self) -> (r: u32)
        ensures
            r == self.bits_view(),
    {
        self.bits
    }

    /// Flags of the bits of `bits` that are flags.
    pub fn from_bits_truncate(bits: u32) -> (r: Self)
        ensures
            r.bits_view() == bits & 0x3,
    {
        DescriptorSetLayoutCreateFlags { bits: bits & 0x3 }
    }

    /// All flags of `other` are set in `self`.
    pub fn contains(&self, other: Self) -> (r: bool)
        ensures
            r == (self.bits_view() & other.bits_view() == other.bits_view()),
    {
        self.bits & other.bits == other.bits
    }

    /// Flags set in either.
    pub fn union(&self, other: Self) -> (r: Self)
        ensures
            r.bits_view() == self.bits_view() | other.bits_view(),
    {
        DescriptorSetLayoutCreateFlags { bits: self.bits | other.bits }
    }
}

/// Single binding of the set layout.
#[derive(Clone, Copy, Debug)]
pub struct DescriptorSetLayoutBinding {
    binding: u32,
    descriptor_type: DescriptorType,
    descriptor_count: u32,
    stages: ShaderStageFlags,
}

/// Creation info for set layout.
#[derive(Clone, Debug)]
pub struct DescriptorSetLayoutCreateInfo<B> {
    flags: DescriptorSetLayoutCreateFlags,
    bindings: B,
}

} // verus!
