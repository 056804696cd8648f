//! Shader interface layout: descriptor types, descriptor set layouts, push constant
//! ranges and shader stage flags.

pub mod descriptor;
pub mod pipeline;
pub mod set;
pub mod shaders;
