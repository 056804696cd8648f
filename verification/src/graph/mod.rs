//! Render graph support: parameters passed between nodes, arena of slices, reflection
//! helpers, identifiers of graph objects, and the decisions of render pass and present
//! nodes.

pub mod parameter;
pub mod slice_buf;
pub mod ids;
pub mod reflect;
pub mod render;
pub mod pass;
pub mod present;
