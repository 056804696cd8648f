//! Shader stage flags.

use vstd::prelude::*;

verus! {

/// Shader stages flags.
#[derive(Clone, Copy, Debug, PartialEq, Eq, Structural, Hash)]
pub struct ShaderStageFlags {
    bits: u32,
}

/// Bits of all the shader stages.
pub const SHADER_STAGE_ALL_BITS: u32 = 0x7FFF_FFFF;

impl ShaderStageFlags {
    /// Raw bits of the flags.
    pub closed spec fn bits_view(&self) -> u32 {
        self.bits
    }

    /// No stage.
    pub fn empty() -> (r: Self)
        ensures
            r.bits_view() == 0,
    {
        ShaderStageFlags { bits: 0 }
    }

    /// All shaders.
    pub fn all() -> (r: Self)
        ensures
            r.bits_view() == SHADER_STAGE_ALL_BITS,
    {
        ShaderStageFlags { bits: SHADER_STAGE_ALL_BITS }
    }

    /// Vertex shader.
    pub fn vertex() -> (r: Self)
        ensures
            r.bits_view() == 0x1,
    {
        ShaderStageFlags { bits: 0x1 }
    }

    /// Tessellation control shader.
    pub fn tessellation_control() -> (r: Self)
        ensures
            r.bits_view() == 0x2,
    {
        ShaderStageFlags { bits: 0x2 }
    }

    /// Tessellation evaluation shader.
    pub fn tessellation_evaluation() -> (r: Self)
        ensures
            r.bits_view() == 0x4,
    {
        ShaderStageFlags { bits: 0x4 }
    }

    /// Geometry shader.
    pub fn geometry() -> (r: Self)
        ensures
            r.bits_view() == 0x8,
    {
        ShaderStageFlags { bits: 0x8 }
    }

    /// Fragment shader.
    pub fn fragment() -> (r: Self)
        ensures
            r.bits_view() == 0x10,
    {
        ShaderStageFlags { bits: 0x10 }
    }

    /// Compute shader.
    pub fn compute() -> (r: Self)
        ensures
            r.bits_view() == 0x20,
    {
        ShaderStageFlags { bits: 0x20 }
    }

    /// All graphics shaders.
    pub fn all_graphics() -> (r: Self)
        ensures
            r.bits_view() == 0x1F,
    {
        ShaderStageFlags { bits: 0x1F }
    }

    /// Raw bits of the flags.
    pub fn bits(&self) -> (r: u32)
        ensures
            r == self.bits_view(),
    {
        self.bits
    }

    /// Flags of `bits`, if every bit set is one of a shader stage.
    pub fn from_bits(bits: u32) -> (r: Option<Self>)
        ensures
            r matches Some(f) ==> f.bits_view() == bits,
            r is Some <==> bits & !SHADER_STAGE_ALL_BITS == 0,
    {
        if bits & !SHADER_STAGE_ALL_BITS == 0 {
            Some(ShaderStageFlags { bits })
        } else {
            None
        }
    }

    /// Flags of the bits of `bits` that are shader stages.
    pub fn from_bits_truncate(bits: u32) -> (r: Self)
        ensures
            r.bits_view() == bits & SHADER_STAGE_ALL_BITS,
    {
        ShaderStageFlags { bits: bits & SHADER_STAGE_ALL_BITS }
    }

    /// No stage is set.
    pub fn is_empty(&self) -> (r: bool)
        ensures
            r == (self.bits_view() == 0),
    {
        self.bits == 0
    }

    /// All stages are set.
    pub fn is_all(&self) -> (r: bool)
        ensures
            r == (self.bits_view() == SHADER_STAGE_ALL_BITS),
    {
        self.bits == SHADER_STAGE_ALL_BITS
    }

    /// All stages of `other` are set in `self`.
    pub fn contains(&self, other: Self) -> (r: bool)
        ensures
            r == (self.bits_view() & other.bits_view() == other.bits_view()),
    {
        self.bits & other.bits == other.bits
    }

    /// Some stage of `other` is set in `self`.
    pub fn intersects(&self, other: Self) -> (r: bool)
        ensures
            r == (self.bits_view() & other.bits_view() != 0),
    {
        self.bits & other.bits != 0
    }

    /// Stages set in either.
    pub closed spec fn spec_union(self, other: Self) -> Self {
        ShaderStageFlags { bits: self.bits | other.bits }
    }

    /// Stages set in either.
    pub fn union(&self, other: Self) -> (r: Self)
        ensures
            r.bits_view() == self.bits_view() | other.bits_view(),
            r == self.spec_union(other),
    {
        ShaderStageFlags { bits: self.bits | other.bits }
    }

    /// Stages set in both.
    pub fn intersection(&self, other: Self) -> (r: Self)
        ensures
            r.bits_view() == self.bits_view() & other.bits_view(),
    {
        ShaderStageFlags { bits: self.bits & other.bits }
    }

    /// Stages of `self` not set in `other`.
    pub fn difference(&self, other: Self) -> (r: Self)
        ensures
            r.bits_view() == self.bits_view() & !other.bits_view(),
    {
        ShaderStageFlags { bits: self.bits & !other.bits }
    }

    /// Set the stages of `other`.
    pub fn insert(&mut self, other: Self)
        ensures
            final(self).bits_view() == old(self).bits_view() | other.bits_view(),
    {
        self.bits = self.bits | other.bits;
    }

    /// Clear the stages of `other`.
    pub fn remove(&mut self, other: Self)
        ensures
            final(self).bits_view() == old(self).bits_view() & !other.bits_view(),
    {
        self.bits = self.bits & !other.bits;
    }
}

/// The union holds exactly the stages of either operand, so it contains both.
pub proof fn lemma_union_bits(a: ShaderStageFlags, b: ShaderStageFlags)
    ensures
        a.spec_union(b).bits_view() == a.bits_view() | b.bits_view(),
        a.spec_union(b).bits_view() & b.bits_view() == b.bits_view(),
        a.spec_union(b).bits_view() & a.bits_view() == a.bits_view(),
{
    let x = a.bits_view();
    let y = b.bits_view();
    assert((x | y) & y == y) by (bit_vector);
    assert((x | y) & x == x) by (bit_vector);
}

/// Adding stages and then asking for them finds them: `a.union(b)` contains `b`.
pub proof fn lemma_union_contains(a: ShaderStageFlags, b: ShaderStageFlags)
    ensures
        (a.bits_view() | b.bits_view()) & b.bits_view() == b.bits_view(),
{
    let x = a.bits_view();
    let y = b.bits_view();
    assert((x | y) & y == y) by (bit_vector);
}

} // verus!
