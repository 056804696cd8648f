use rendy::memory::error::{AllocationError, HeapsError, MappingError, MemoryError, OutOfMemoryError};
use rendy::memory::properties::Properties;
use rendy::memory::usage::{Data, Download, Dynamic, Kind, MemoryUsage, Upload};

fn props(device_local: bool, cpu_visible: bool, coherent: bool, cpu_cached: bool) -> Properties {
    Properties { device_local, cpu_visible, coherent, cpu_cached, lazily_allocated: false }
}

#[test]
fn data_fitness_values() {
    assert_eq!(Data.memory_fitness(props(true, false, false, false)), 15);
    assert_eq!(Data.memory_fitness(props(true, true, true, false)), 6);
    assert_eq!(Data.properties_required(), Properties::device_local_only());
}

#[test]
fn data_avoids_host_visible_memory() {
    let device_only = props(true, false, true, true);
    let shared = props(true, true, false, false);
    assert!(Data.memory_fitness(device_only) > Data.memory_fitness(shared));
}

#[test]
fn dynamic_prefers_device_local() {
    assert_eq!(Dynamic.memory_fitness(props(true, true, true, false)), 7);
    assert_eq!(Dynamic.memory_fitness(props(false, true, true, true)), 2);
    assert!(Dynamic.memory_fitness(props(true, true, false, true)) > Dynamic.memory_fitness(props(false, true, true, false)));
}

#[test]
fn staging_usages_prefer_host_memory() {
    assert_eq!(Upload.memory_fitness(props(false, true, true, false)), 7);
    assert_eq!(Download.memory_fitness(props(false, true, true, true)), 7);
    assert_eq!(Download.memory_fitness(props(true, true, false, false)), 0);
    assert_eq!(Upload.properties_required(), Properties::cpu_visible_only());
}

#[test]
fn allocator_fitness_values() {
    assert_eq!(Data.allocator_fitness(Kind::Dynamic), 2);
    assert_eq!(Data.allocator_fitness(Kind::Dedicated), 1);
    assert_eq!(Data.allocator_fitness(Kind::Linear), 0);
    assert_eq!(Upload.allocator_fitness(Kind::Linear), 2);
    assert_eq!(Download.allocator_fitness(Kind::Dedicated), 0);
    assert_eq!(Dynamic.allocator_fitness(Kind::Dynamic), 2);
}

#[test]
fn error_conversions() {
    let e = OutOfMemoryError::OutOfDeviceMemory;
    assert_eq!(MappingError::from(e), MappingError::OutOfMemoryError(e));
    assert_eq!(AllocationError::from(e), AllocationError::OutOfMemoryError(e));
    assert_eq!(MemoryError::from(e), MemoryError::OutOfMemoryError(e));
    let a = AllocationError::OutOfMemoryError(OutOfMemoryError::OutOfHostMemory);
    assert_eq!(MemoryError::from(a), MemoryError::AllocationError(a));
    assert_eq!(HeapsError::from(a), HeapsError::AllocationError(a));
}
