//! Usage types for memory blocks: which properties a usage needs, how well a memory
//! type with given properties suits it, and how well each allocator suits it.

use crate::memory::properties::Properties;
use vstd::prelude::*;

verus! {

/// Kind of sub-allocator.
#[derive(Clone, Copy, Debug, PartialEq, Eq, Structural)]
pub enum Kind {
    /// Memory object per allocation.
    Dedicated,
    /// Blocks of fixed sizes carved out of chunks.
    Dynamic,
    /// Sequential allocation from large lines.
    Linear,
}

/// Usage value that names one of the predefined usages.
#[derive(Clone, Copy, Debug, PartialEq, Eq, Structural)]
pub enum MemoryUsageValue {
    /// See `Data`.
    Data,
    /// See `Dynamic`.
    Dynamic,
    /// See `Upload`.
    Upload,
    /// See `Download`.
    Download,
}

/// Memory usage trait.
pub trait MemoryUsage {
    /// Properties required by the usage.
    spec fn required(&self) -> Properties;

    /// Whether the usage rates memory with `properties` at all.
    spec fn rates(&self, properties: Properties) -> bool;

    /// Fitness of memory with `properties`; larger is better.
    spec fn fitness(&self, properties: Properties) -> u32;

    /// Fitness of an allocator kind; larger is better.
    spec fn kind_fitness(&self, kind: Kind) -> u32;

    /// Get set of properties required for the usage.
    fn properties_required(&self) -> (r: Properties)
        ensures
            r == self.required(),
    ;

    /// Get comparable fitness value for memory properties.
    /// The properties must contain the required ones (else the usage panics).
    fn memory_fitness(&self, properties: Properties) -> (r: u32)
        requires
            self.rates(properties),
        ensures
            r == self.fitness(properties),
    ;

    /// Get comparable fitness value for memory allocator.
    fn allocator_fitness(&self, kind: Kind) -> (r: u32)
        ensures
            r == self.kind_fitness(kind),
    ;
}

/// Numeric value of a flag.
pub open spec fn flag(b: bool) -> u32 {
    if b { 1 } else { 0 }
}

fn flag_value(b: bool) -> (r: u32)
    ensures
        r == flag(b),
{
    if b { 1 } else { 0 }
}

/// Full speed GPU access.
/// Optimal for render targets and persistent resources.
/// Avoid memory with host access.
#[derive(Clone, Copy, Debug)]
pub struct Data;

impl MemoryUsage for Data {
    open spec fn required(&self) -> Properties {
        Properties::spec_device_local()
    }

    open spec fn rates(&self, properties: Properties) -> bool {
        properties.device_local
    }

    open spec fn fitness(&self, p: Properties) -> u32 {
        (8 * flag(!p.cpu_visible) + 4 * flag(!p.lazily_allocated) + 2 * flag(!p.cpu_cached)
            + flag(!p.coherent)) as u32
    }

    open spec fn kind_fitness(&self, kind: Kind) -> u32 {
        match kind {
            Kind::Dedicated => 1,
            Kind::Dynamic => 2,
            Kind::Linear => 0,
        }
    }

    fn properties_required(&self) -> (r: Properties) {
        Properties::device_local_only()
    }

    fn memory_fitness(&self, p: Properties) -> (r: u32) {
        8 * flag_value(!p.cpu_visible) + 4 * flag_value(!p.lazily_allocated) + 2 * flag_value(
            !p.cpu_cached,
        ) + flag_value(!p.coherent)
    }

    fn allocator_fitness(&self, kind: Kind) -> (r: u32) {
        match kind {
            Kind::Dedicated => 1,
            Kind::Dynamic => 2,
            Kind::Linear => 0,
        }
    }
}

/// CPU to GPU data flow with update commands.
/// Used for dynamic buffer data, typically constant buffers.
/// Host access is guaranteed.
/// Prefers memory with fast GPU access.
#[derive(Clone, Copy, Debug)]
pub struct Dynamic;

impl MemoryUsage for Dynamic {
    open spec fn required(&self) -> Properties {
        Properties::spec_cpu_visible()
    }

    open spec fn rates(&self, properties: Properties) -> bool {
        properties.cpu_visible && !properties.lazily_allocated
    }

    open spec fn fitness(&self, p: Properties) -> u32 {
        (4 * flag(p.device_local) + 2 * flag(p.coherent) + flag(!p.cpu_cached)) as u32
    }

    open spec fn kind_fitness(&self, kind: Kind) -> u32 {
        match kind {
            Kind::Dedicated => 1,
            Kind::Dynamic => 2,
            Kind::Linear => 0,
        }
    }

    fn properties_required(&self) -> (r: Properties) {
        Properties::cpu_visible_only()
    }

    fn memory_fitness(&self, p: Properties) -> (r: u32) {
        4 * flag_value(p.device_local) + 2 * flag_value(p.coherent) + flag_value(!p.cpu_cached)
    }

    fn allocator_fitness(&self, kind: Kind) -> (r: u32) {
        match kind {
            Kind::Dedicated => 1,
            Kind::Dynamic => 2,
            Kind::Linear => 0,
        }
    }
}

/// CPU to GPU data flow with mapping.
/// Used for staging data before copying to the `Data` memory.
/// Host access is guaranteed.
#[derive(Clone, Copy, Debug)]
pub struct Upload;

impl MemoryUsage for Upload {
    open spec fn required(&self) -> Properties {
        Properties::spec_cpu_visible()
    }

    open spec fn rates(&self, properties: Properties) -> bool {
        properties.cpu_visible && !properties.lazily_allocated
    }

    open spec fn fitness(&self, p: Properties) -> u32 {
        (4 * flag(!p.device_local) + 2 * flag(p.coherent) + flag(!p.cpu_cached)) as u32
    }

    open spec fn kind_fitness(&self, kind: Kind) -> u32 {
        match kind {
            Kind::Dedicated => 0,
            Kind::Dynamic => 1,
            Kind::Linear => 2,
        }
    }

    fn properties_required(&self) -> (r: Properties) {
        Properties::cpu_visible_only()
    }

    fn memory_fitness(&self, p: Properties) -> (r: u32) {
        4 * flag_value(!p.device_local) + 2 * flag_value(p.coherent) + flag_value(!p.cpu_cached)
    }

    fn allocator_fitness(&self, kind: Kind) -> (r: u32) {
        match kind {
            Kind::Dedicated => 0,
            Kind::Dynamic => 1,
            Kind::Linear => 2,
        }
    }
}

/// GPU to CPU data flow with mapping.
/// Used for copying data from `Data` memory to be read by the host.
/// Host access is guaranteed.
#[derive(Clone, Copy, Debug)]
pub struct Download;

impl MemoryUsage for Download {
    open spec fn required(&self) -> Properties {
        Properties::spec_cpu_visible()
    }

    open spec fn rates(&self, properties: Properties) -> bool {
        properties.cpu_visible && !properties.lazily_allocated
    }

    open spec fn fitness(&self, p: Properties) -> u32 {
        (4 * flag(!p.device_local) + 2 * flag(p.cpu_cached) + flag(p.coherent)) as u32
    }

    open spec fn kind_fitness(&self, kind: Kind) -> u32 {
        match kind {
            Kind::Dedicated => 0,
            Kind::Dynamic => 1,
            Kind::Linear => 2,
        }
    }

    fn properties_required(&self) -> (r: Properties) {
        Properties::cpu_visible_only()
    }

    fn memory_fitness(&self, p: Properties) -> (r: u32) {
        4 * flag_value(!p.device_local) + 2 * flag_value(p.cpu_cached) + flag_value(p.coherent)
    }

    fn allocator_fitness(&self, kind: Kind) -> (r: u32) {
        match kind {
            Kind::Dedicated => 0,
            Kind::Dynamic => 1,
            Kind::Linear => 2,
        }
    }
}

/// Every usage requires exactly the flags it asks for: memory a usage rates has the
/// properties the usage requires.
pub proof fn lemma_rated_memory_has_required_properties(p: Properties)
    ensures
        Data.rates(p) == p.spec_contains(Data.required()),
        Dynamic.rates(p) ==> p.spec_contains(Dynamic.required()),
        Upload.rates(p) ==> p.spec_contains(Upload.required()),
        Download.rates(p) ==> p.spec_contains(Download.required()),
{
}

/// `Data` avoids memory with host access: device-local memory the host cannot see always
/// rates above device-local memory it can.
pub proof fn lemma_data_avoids_host_access(p: Properties, q: Properties)
    requires
        Data.rates(p),
        Data.rates(q),
        !p.cpu_visible,
        q.cpu_visible,
    ensures
        Data.fitness(p) > Data.fitness(q),
{
}

/// `Dynamic` prefers memory with fast GPU access: device-local memory always rates above
/// memory that is not.
pub proof fn lemma_dynamic_prefers_device_local(p: Properties, q: Properties)
    requires
        Dynamic.rates(p),
        Dynamic.rates(q),
        p.device_local,
        !q.device_local,
    ensures
        Dynamic.fitness(p) > Dynamic.fitness(q),
{
}

/// Staging usages keep away from device-local memory: host memory always rates above
/// device-local memory for `Upload` and `Download`.
pub proof fn lemma_staging_prefers_host_memory(p: Properties, q: Properties)
    requires
        !p.device_local,
        q.device_local,
    ensures
        Upload.fitness(p) > Upload.fitness(q),
        Download.fitness(p) > Download.fitness(q),
{
}

/// Usages that write from the host each draw a preference between linear and dynamic
/// allocation: staging usages rate the linear allocator highest, the others the dynamic one.
pub proof fn lemma_allocator_preferences()
    ensures
        Upload.kind_fitness(Kind::Linear) > Upload.kind_fitness(Kind::Dynamic),
        Download.kind_fitness(Kind::Linear) > Download.kind_fitness(Kind::Dynamic),
        Data.kind_fitness(Kind::Dynamic) > Data.kind_fitness(Kind::Dedicated),
        Dynamic.kind_fitness(Kind::Dynamic) > Dynamic.kind_fitness(Kind::Dedicated),
        Data.kind_fitness(Kind::Linear) == 0,
        Dynamic.kind_fitness(Kind::Linear) == 0,
{
}

/// Memory with property value `a` rates above memory with value `b` on one criterion.
pub open spec fn beats(a: bool, b: bool) -> bool {
    a && !b
}

/// `Download` ranks host memory by three criteria, each deciding only when the ones before
/// agree: not device-local first, then cached (reads by the host are fast), then coherent.
pub proof fn lemma_download_ranking(p: Properties, q: Properties)
    ensures
        Download.fitness(p) > Download.fitness(q) <==> {
            ||| beats(!p.device_local, !q.device_local)
            ||| p.device_local == q.device_local && beats(p.cpu_cached, q.cpu_cached)
            ||| p.device_local == q.device_local && p.cpu_cached == q.cpu_cached && beats(p.coherent, q.coherent)
        },
        Download.fitness(p) == Download.fitness(q) <==> (p.device_local == q.device_local && p.cpu_cached
            == q.cpu_cached && p.coherent == q.coherent),
{
}

/// `Upload` ranks host memory by three criteria, each deciding only when the ones before
/// agree: not device-local first, then coherent (no flushes), then uncached (writes
/// combine).
pub proof fn lemma_upload_ranking(p: Properties, q: Properties)
    ensures
        Upload.fitness(p) > Upload.fitness(q) <==> {
            ||| beats(!p.device_local, !q.device_local)
            ||| p.device_local == q.device_local && beats(p.coherent, q.coherent)
            ||| p.device_local == q.device_local && p.coherent == q.coherent && beats(!p.cpu_cached, !q.cpu_cached)
        },
        Upload.fitness(p) == Upload.fitness(q) <==> (p.device_local == q.device_local && p.coherent == q.coherent
            && p.cpu_cached == q.cpu_cached),
{
}

/// `Dynamic` ranks host-visible memory by three criteria, each deciding only when the ones
/// before agree: device-local first, then coherent, then uncached.
pub proof fn lemma_dynamic_ranking(p: Properties, q: Properties)
    ensures
        Dynamic.fitness(p) > Dynamic.fitness(q) <==> {
            ||| beats(p.device_local, q.device_local)
            ||| p.device_local == q.device_local && beats(p.coherent, q.coherent)
            ||| p.device_local == q.device_local && p.coherent == q.coherent && beats(!p.cpu_cached, !q.cpu_cached)
        },
        Dynamic.fitness(p) == Dynamic.fitness(q) <==> (p.device_local == q.device_local && p.coherent
            == q.coherent && p.cpu_cached == q.cpu_cached),
{
}

/// `Data` ranks device-local memory by four criteria, each deciding only when the ones
/// before agree: invisible to the host first, then not lazily allocated, then uncached,
/// then not coherent.
pub proof fn lemma_data_ranking(p: Properties, q: Properties)
    ensures
        Data.fitness(p) > Data.fitness(q) <==> {
            ||| beats(!p.cpu_visible, !q.cpu_visible)
            ||| p.cpu_visible == q.cpu_visible && beats(!p.lazily_allocated, !q.lazily_allocated)
            ||| p.cpu_visible == q.cpu_visible && p.lazily_allocated == q.lazily_allocated && beats(
                !p.cpu_cached,
                !q.cpu_cached,
            )
            ||| p.cpu_visible == q.cpu_visible && p.lazily_allocated == q.lazily_allocated && p.cpu_cached
                == q.cpu_cached && beats(!p.coherent, !q.coherent)
        },
        Data.fitness(p) == Data.fitness(q) <==> (p.cpu_visible == q.cpu_visible && p.lazily_allocated
            == q.lazily_allocated && p.cpu_cached == q.cpu_cached && p.coherent == q.coherent),
{
}

/// Each usage ranks the allocators: `Data` and `Dynamic` prefer the dynamic allocator,
/// then a dedicated object, and never take the linear one; the staging usages `Upload` and
/// `Download` prefer the linear allocator, then the dynamic one, then a dedicated object.
pub proof fn lemma_allocator_ranking()
    ensures
        Data.kind_fitness(Kind::Dynamic) > Data.kind_fitness(Kind::Dedicated) > Data.kind_fitness(Kind::Linear)
            == 0,
        Dynamic.kind_fitness(Kind::Dynamic) > Dynamic.kind_fitness(Kind::Dedicated) > Dynamic.kind_fitness(
            Kind::Linear,
        ) == 0,
        Upload.kind_fitness(Kind::Linear) > Upload.kind_fitness(Kind::Dynamic) > Upload.kind_fitness(
            Kind::Dedicated,
        ),
        Download.kind_fitness(Kind::Linear) > Download.kind_fitness(Kind::Dynamic) > Download.kind_fitness(
            Kind::Dedicated,
        ),
{
}

} // verus!
