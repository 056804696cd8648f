//! Allocators that sub-allocate blocks from memory objects of one memory type.

pub mod arena;
pub mod collections;
pub mod dedicated;
pub mod dynamic;
pub mod linear;
pub mod live;
