//! Pipeline layout description.

use crate::layout::shaders::ShaderStageFlags;
use vstd::prelude::*;

verus! {

/// Range of push constants visible to some shader stages.
#[derive(Clone, Copy, Debug)]
pub struct PushConstantRange {
    /// Stages that see the range.
    pub stage_flags: ShaderStageFlags,
    /// Offset of the range in bytes.
    pub offset: u32,
    /// Size of the range in bytes.
    pub size: u32,
}

/// Creation info of a pipeline layout: its descriptor set layouts and push constant ranges.
#[derive(Clone, Debug)]
pub struct PipelineLayoutCreateInfo<S, P> {
    /// Descriptor set layouts.
    pub sets: S,
    /// Push constant ranges.
    pub push: P,
}

} // verus!
