//! Identifiers and marker types of graph objects.

use std::marker::PhantomData;
use vstd::prelude::*;

verus! {

/// Identifier of a graphics pipeline in the pipeline cache.
#[derive(Debug, Copy, Clone, PartialEq, Eq, Structural, Hash)]
pub struct GraphicsPipelineId(usize);

/// Identifier of a render pass in the pipeline cache.
#[derive(Debug, Copy, Clone, PartialEq, Eq, Structural, Hash)]
pub struct RenderPassId(usize);

/// Identifier of a node generated into the graph; index into the graph's node table.
#[derive(Copy, Clone, PartialEq, Eq, Structural, Debug)]
pub struct GraphGenerationNodeId(u32);

impl GraphGenerationNodeId {
    /// Index the identifier stands for.
    pub closed spec fn index_view(&self) -> u32 {
        self.0
    }

    /// Identifier of index `index`; `u32::MAX` is reserved.
    pub fn new(index: usize) -> (r: Self)
        requires
            index < u32::MAX,
        ensures
            r.index_view() == index,
    {
        GraphGenerationNodeId(index as u32)
    }

    /// Index the identifier stands for.
    pub fn index(self) -> (r: usize)
        ensures
            r == self.index_view(),
    {
        self.0 as usize
    }

    /// Identifier of raw value `x`.
    pub fn from_u32(x: u32) -> (r: Self)
        requires
            x < u32::MAX,
        ensures
            r.index_view() == x,
    {
        GraphGenerationNodeId(x)
    }

    /// Raw value of the identifier.
    pub fn as_u32(self) -> (r: u32)
        ensures
            r == self.index_view(),
    {
        self.0
    }

    /// Value reserved to mean "no node".
    pub fn reserved_value() -> (r: Self)
        ensures
            r.index_view() == u32::MAX,
    {
        GraphGenerationNodeId(u32::MAX)
    }
}

/// An identifier made from an index gives that index back.
pub proof fn lemma_node_id_round_trip(index: usize, id: GraphGenerationNodeId)
    requires
        index < u32::MAX,
        id.index_view() == index,
    ensures
        id.index_view() as usize == index,
{
}

/// Kind of primitive assembler of a graphics pipeline.
#[derive(Debug, Clone, Copy, PartialEq, Eq, Structural)]
pub enum PrimitiveAssemblerKind {
    /// Vertex input assembler.
    Vertex,
    /// Mesh shader assembler.
    Mesh,
}

/// Shader program.
#[derive(Debug)]
pub struct Program {}

/// Types that key graphics pipelines in the pipeline cache.
#[derive(Debug)]
pub struct CacheGraphicsPipelineTypes;

/// Node built from a function that produces the node's result parameters.
pub struct SimpleNode<F, R> {
    fun: F,
    phantom: PhantomData<R>,
}

impl<F, R> SimpleNode<F, R> {
    /// Node running `fun`.
    pub fn new(fun: F) -> (r: Self)
        ensures
            r.fun_view() == fun,
    {
        SimpleNode { fun, phantom: PhantomData }
    }

    /// Function the node runs.
    pub closed spec fn fun_view(&self) -> F {
        self.fun
    }
}

/// Descriptor for simple render group.
#[derive(Debug)]
pub struct SimpleRenderGroupDesc<P> {
    inner: P,
}

impl<P> SimpleRenderGroupDesc<P> {
    /// Descriptor wrapping pipeline description `inner`.
    pub fn new(inner: P) -> (r: Self)
        ensures
            r.inner_view() == inner,
    {
        SimpleRenderGroupDesc { inner }
    }

    /// Wrapped pipeline description.
    pub closed spec fn inner_view(&self) -> P {
        self.inner
    }
}

} // verus!
