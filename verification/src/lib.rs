//! GPU memory management, shader interface layout and render-graph helpers.

pub mod graph;
pub mod layout;
pub mod memory;
