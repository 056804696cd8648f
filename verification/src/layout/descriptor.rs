//! A descriptor is an opaque data structure representing a shader resource.
//! Each kind of descriptor is named by a marker type that gives its `DescriptorType`.

use vstd::prelude::*;

verus! {

/// Type of the descriptor.
/// Every descriptor has a type.
/// Type must be specified during both layout creation and descriptor writing.
#[derive(Clone, Copy, Debug, PartialEq, Eq, Structural)]
pub enum DescriptorType {
    /// Sampler descriptor.
    Sampler,
    /// Image view combined with sampler.
    CombinedImageSampler,
    /// Image view to use with sampler.
    SampledImage,
    /// Image view for per-pixel access.
    StorageImage,
    /// Buffer range with dynamic array of read-only texels.
    UniformTexelBuffer,
    /// Buffer range with dynamic array of read-write texels.
    StorageTexelBuffer,
    /// Buffer range with read-only uniform structure.
    UniformBuffer,
    /// Buffer range with read-write uniform structure.
    StorageBuffer,
    /// Uniform buffer with dynamic offset.
    UniformBufferDynamic,
    /// Storage buffer with dynamic offset.
    StorageBufferDynamic,
    /// Input attachment.
    InputAttachment,
}

impl DescriptorType {
    /// Numeric value of the type, as in the Vulkan specification.
    pub open spec fn value_spec(&self) -> u32 {
        match self {
            DescriptorType::Sampler => 0,
            DescriptorType::CombinedImageSampler => 1,
            DescriptorType::SampledImage => 2,
            DescriptorType::StorageImage => 3,
            DescriptorType::UniformTexelBuffer => 4,
            DescriptorType::StorageTexelBuffer => 5,
            DescriptorType::UniformBuffer => 6,
            DescriptorType::StorageBuffer => 7,
            DescriptorType::UniformBufferDynamic => 8,
            DescriptorType::StorageBufferDynamic => 9,
            DescriptorType::InputAttachment => 10,
        }
    }

    /// Numeric value of the type, as in the Vulkan specification.
    pub fn value(&self) -> (r: u32)
        ensures
            r == self.value_spec(),
    {
        match self {
            DescriptorType::Sampler => 0,
            DescriptorType::CombinedImageSampler => 1,
            DescriptorType::SampledImage => 2,
            DescriptorType::StorageImage => 3,
            DescriptorType::UniformTexelBuffer => 4,
            DescriptorType::StorageTexelBuffer => 5,
            DescriptorType::UniformBuffer => 6,
            DescriptorType::StorageBuffer => 7,
            DescriptorType::UniformBufferDynamic => 8,
            DescriptorType::StorageBufferDynamic => 9,
            DescriptorType::InputAttachment => 10,
        }
    }

    /// Type of numeric value `value`, if it names one.
    pub fn from_value(value: u32) -> (r: Option<Self>)
        ensures
            r matches Some(t) ==> t.value_spec() == value,
            r is Some <==> value <= 10,
    {
        match value {
            0 => Some(DescriptorType::Sampler),
            1 => Some(DescriptorType::CombinedImageSampler),
            2 => Some(DescriptorType::SampledImage),
            3 => Some(DescriptorType::StorageImage),
            4 => Some(DescriptorType::UniformTexelBuffer),
            5 => Some(DescriptorType::StorageTexelBuffer),
            6 => Some(DescriptorType::UniformBuffer),
            7 => Some(DescriptorType::StorageBuffer),
            8 => Some(DescriptorType::UniformBufferDynamic),
            9 => Some(DescriptorType::StorageBufferDynamic),
            10 => Some(DescriptorType::InputAttachment),
            _ => None,
        }
    }
}

/// Distinct descriptor types have distinct numeric values, and reading a value back gives
/// the type.
pub proof fn lemma_value_injective(a: DescriptorType, b: DescriptorType)
    ensures
        a.value_spec() == b.value_spec() ==> a == b,
{
}

/// Kind of descriptor named by a marker type.
pub trait Descriptor {
    /// Type of the descriptors of this kind.
    spec fn descriptor_type_spec() -> DescriptorType;

    /// Type of the descriptors of this kind.
    fn descriptor_type() -> (r: DescriptorType)
        ensures
            r == Self::descriptor_type_spec(),
    ;
}

/// Sampler descriptor marker.
#[derive(Clone, Copy, Debug)]
pub struct SamplerDescriptor;

/// Combined image and sampler descriptor marker.
#[derive(Clone, Copy, Debug)]
pub struct CombinedImageSamplerDescriptor;

/// Sampled image descriptor marker.
#[derive(Clone, Copy, Debug)]
pub struct SampledImageDescriptor;

/// Storage image descriptor marker.
#[derive(Clone, Copy, Debug)]
pub struct StorageImageDescriptor;

/// Uniform texel buffer descriptor marker.
#[derive(Clone, Copy, Debug)]
pub struct UniformTexelBufferDescriptor;

/// Storage texel buffer descriptor marker.
#[derive(Clone, Copy, Debug)]
pub struct StorageTexelBufferDescriptor;

/// Uniform buffer descriptor marker.
#[derive(Clone, Copy, Debug)]
pub struct UniformBufferDescriptor;

/// Storage buffer descriptor marker.
#[derive(Clone, Copy, Debug)]
pub struct StorageBufferDescriptor;

/// Dynamic uniform buffer descriptor marker.
#[derive(Clone, Copy, Debug)]
pub struct UniformBufferDynamicDescriptor;

/// Dynamic storage buffer descriptor marker.
#[derive(Clone, Copy, Debug)]
pub struct StorageBufferDynamicDescriptor;

/// Input attachment descriptor marker.
#[derive(Clone, Copy, Debug)]
pub struct InputAttachmentDescriptor;

impl Descriptor for SamplerDescriptor {
    open spec fn descriptor_type_spec() -> DescriptorType {
        DescriptorType::Sampler
    }

    fn descriptor_type() -> (r: DescriptorType) {
        DescriptorType::Sampler
    }
}

impl Descriptor for CombinedImageSamplerDescriptor {
    open spec fn descriptor_type_spec() -> DescriptorType {
        DescriptorType::CombinedImageSampler
    }

    fn descriptor_type() -> (r: DescriptorType) {
        DescriptorType::CombinedImageSampler
    }
}

impl Descriptor for SampledImageDescriptor {
    open spec fn descriptor_type_spec() -> DescriptorType {
        DescriptorType::SampledImage
    }

    fn descriptor_type() -> (r: DescriptorType) {
        DescriptorType::SampledImage
    }
}

impl Descriptor for StorageImageDescriptor {
    open spec fn descriptor_type_spec() -> DescriptorType {
        DescriptorType::StorageImage
    }

    fn descriptor_type() -> (r: DescriptorType) {
        DescriptorType::StorageImage
    }
}

impl Descriptor for UniformTexelBufferDescriptor {
    open spec fn descriptor_type_spec() -> DescriptorType {
        DescriptorType::UniformTexelBuffer
    }

    fn descriptor_type() -> (r: DescriptorType) {
        DescriptorType::UniformTexelBuffer
    }
}

impl Descriptor for StorageTexelBufferDescriptor {
    open spec fn descriptor_type_spec() -> DescriptorType {
        DescriptorType::StorageTexelBuffer
    }

    fn descriptor_type() -> (r: DescriptorType) {
        DescriptorType::StorageTexelBuffer
    }
}

impl Descriptor for UniformBufferDescriptor {
    open spec fn descriptor_type_spec() -> DescriptorType {
        DescriptorType::UniformBuffer
    }

    fn descriptor_type() -> (r: DescriptorType) {
        DescriptorType::UniformBuffer
    }
}

impl Descriptor for StorageBufferDescriptor {
    open spec fn descriptor_type_spec() -> DescriptorType {
        DescriptorType::StorageBuffer
    }

    fn descriptor_type() -> (r: DescriptorType) {
        DescriptorType::StorageBuffer
    }
}

impl Descriptor for UniformBufferDynamicDescriptor {
    open spec fn descriptor_type_spec() -> DescriptorType {
        DescriptorType::UniformBufferDynamic
    }

    fn descriptor_type() -> (r: DescriptorType) {
        DescriptorType::UniformBufferDynamic
    }
}

impl Descriptor for StorageBufferDynamicDescriptor {
    open spec fn descriptor_type_spec() -> DescriptorType {
        DescriptorType::StorageBufferDynamic
    }

    fn descriptor_type() -> (r: DescriptorType) {
        DescriptorType::StorageBufferDynamic
    }
}

impl Descriptor for InputAttachmentDescriptor {
    open spec fn descriptor_type_spec() -> DescriptorType {
        DescriptorType::InputAttachment
    }

    fn descriptor_type() -> (r: DescriptorType) {
        DescriptorType::InputAttachment
    }
}

} // verus!
