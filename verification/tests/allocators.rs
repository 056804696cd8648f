use rendy::memory::device::Device;
use rendy::memory::mapping::MappedRange;
use rendy::memory::memory::Memory;
use rendy::memory::error::{AllocationError, MappingError, OutOfMemoryError};
use rendy::memory::heaps::{Heaps, HeapsConfig};
use rendy::memory::allocator::dynamic::DynamicConfig;
use rendy::memory::allocator::arena::{ArenaAllocator, ArenaConfig};
use rendy::memory::allocator::dedicated::DedicatedAllocator;
use rendy::memory::allocator::dynamic::DynamicAllocator;
use rendy::memory::allocator::linear::{LinearAllocator, LinearConfig};
use rendy::memory::properties::Properties;
use rendy::memory::usage::{Data, Download, Dynamic, Upload};
use std::cell::RefCell;
use std::collections::HashSet;
use std::ops::Range;

struct Inner {
    freed: HashSet<u64>,
    next: u64,
    flushed: Vec<(u64, Range<u64>)>,
}

struct MockDevice(RefCell<Inner>);

impl MockDevice {
    fn new() -> Self {
        MockDevice(RefCell::new(Inner { freed: HashSet::new(), next: 0, flushed: Vec::new() }))
    }

    fn allocated(&self) -> u64 {
        self.0.borrow().next
    }

    fn freed(&self) -> usize {
        self.0.borrow().freed.len()
    }
}

impl Device for MockDevice {
    fn grants(&self, _index: u32, _size: u64, raw: u64) -> bool {
        raw < self.0.borrow().next
    }

    fn maps(&self, _memory: u64, _range: Range<u64>, _ptr: usize) -> bool {
        true
    }

    fn frees(&self, memory: u64) -> bool {
        self.0.borrow().freed.contains(&memory)
    }

    fn unmaps(&self, _memory: u64) -> bool {
        true
    }

    fn invalidates(&self, _memory: u64, _range: Range<u64>) -> bool {
        true
    }

    fn flushes(&self, memory: u64, range: Range<u64>) -> bool {
        self.0.borrow().flushed.contains(&(memory, range))
    }

    fn allocate(&self, _index: u32, _size: u64) -> Result<u64, AllocationError> {
        let mut inner = self.0.borrow_mut();
        let id = inner.next;
        inner.next = id + 1;
        Ok(id)
    }

    fn free(&self, memory: u64) {
        assert!(self.0.borrow_mut().freed.insert(memory), "Double-free");
    }

    fn map(&self, memory: u64, _range: Range<u64>) -> Result<usize, MappingError> {
        Ok(0x1000_0000 + (memory as usize) * 0x10_0000)
    }

    fn unmap(&self, _memory: u64) {}

    fn invalidate(&self, _memory: u64, _range: Range<u64>) -> Result<(), OutOfMemoryError> {
        Ok(())
    }

    fn flush(&self, memory: u64, range: Range<u64>) -> Result<(), OutOfMemoryError> {
        self.0.borrow_mut().flushed.push((memory, range));
        Ok(())
    }
}

fn props(device_local: bool, cpu_visible: bool, coherent: bool, cpu_cached: bool) -> Properties {
    Properties { device_local, cpu_visible, coherent, cpu_cached, lazily_allocated: false }
}

fn dynamic_config(granularity: u64, max: u64) -> DynamicConfig {
    DynamicConfig { blocks_per_chunk: 64, block_size_granularity: granularity, max_block_size: max }
}

fn init() -> Heaps {
    let linear_config = LinearConfig { linear_size: 32 * 1024 };
    Heaps::new(
        vec![
            (props(true, false, false, false), 0, HeapsConfig { linear: None, dynamic: Some(dynamic_config(256, 32 * 1024)) }),
            (props(true, true, true, false), 1, HeapsConfig { linear: None, dynamic: Some(dynamic_config(32, 1024)) }),
            (
                props(false, true, true, false),
                2,
                HeapsConfig { linear: Some(linear_config), dynamic: Some(dynamic_config(256, 32 * 1024)) },
            ),
            (
                props(false, true, true, true),
                2,
                HeapsConfig { linear: Some(linear_config), dynamic: Some(dynamic_config(256, 32 * 1024)) },
            ),
        ],
        vec![16 * 1024 * 1024, 1024 * 1024, 32 * 1024 * 1024],
        256,
    )
}

#[test]
fn heaps_allocate_data_prefers_device_only_memory() {
    let mut heaps = init();
    let device = MockDevice::new();
    let block = heaps.allocate(&device, 0b11, Data, 1000, 16).unwrap();
    assert_eq!(block.memory_type(), 0);
    let range = block.range();
    assert!(range.end - range.start >= 1000);
    assert_eq!(range.end - range.start, 1024);
    heaps.free(&device, block);
    assert_eq!(device.freed(), 1);
    heaps.dispose(&device);
}

#[test]
fn heaps_allocate_no_suitable_memory() {
    let mut heaps = init();
    let device = MockDevice::new();
    let r = heaps.allocate(&device, 0b1100, Data, 64, 8);
    assert!(matches!(r, Err(rendy::memory::error::HeapsError::NoSuitableMemory(0b1100, _))));
    assert_eq!(device.allocated(), 0);
}

#[test]
fn heaps_allocate_out_of_device_memory() {
    let mut heaps = init();
    let device = MockDevice::new();
    let r = heaps.allocate(&device, 0b10, Dynamic, 2 * 1024 * 1024, 8);
    assert_eq!(
        r.err(),
        Some(rendy::memory::error::HeapsError::AllocationError(AllocationError::OutOfMemoryError(
            OutOfMemoryError::OutOfDeviceMemory
        )))
    );
}

#[test]
fn heaps_upload_uses_linear_host_memory() {
    let mut heaps = init();
    let device = MockDevice::new();
    let a = heaps.allocate(&device, 0b1110, Upload, 100, 4).unwrap();
    assert_eq!(a.memory_type(), 2);
    let b = heaps.allocate(&device, 0b1110, Upload, 100, 4).unwrap();
    assert_eq!(b.range().start, 100);
    assert_eq!(b.range().end, 200);
    assert_eq!(device.allocated(), 1);
    heaps.free(&device, a);
    heaps.free(&device, b);
    heaps.dispose(&device);
}

#[test]
fn heaps_download_prefers_cached_memory() {
    let mut heaps = init();
    let device = MockDevice::new();
    let a = heaps.allocate(&device, 0b1110, Download, 100, 4).unwrap();
    assert_eq!(a.memory_type(), 3);
    heaps.free(&device, a);
    heaps.dispose(&device);
}

#[test]
fn heaps_big_request_is_dedicated() {
    let mut heaps = init();
    let device = MockDevice::new();
    let a = heaps.allocate(&device, 0b1, Data, 64 * 1024, 4).unwrap();
    assert_eq!(a.range(), 0..64 * 1024);
    assert_eq!(device.allocated(), 1);
    heaps.free(&device, a);
    assert_eq!(device.freed(), 1);
    heaps.dispose(&device);
}

#[test]
fn mapped_write_flushes_non_coherent_memory() {
    let device = MockDevice::new();
    let memory = Memory::from_raw(7, 1024, props(false, true, false, false), 64);
    let mapping = MappedRange::new(memory, &device, 0..1024).unwrap();
    assert!(!mapping.is_coherent());
    let w = mapping.write(100..130).unwrap();
    assert_eq!(w.range(), 100..130);
    assert_eq!(w.ptr(), mapping.ptr() + 100);
    w.finish(&device).unwrap();
    assert_eq!(device.0.borrow().flushed, vec![(7, 64..192)]);
    assert!(matches!(mapping.write(1000..1100), Err(MappingError::OutOfBounds)));
}

#[test]
fn linear_allocates_sequentially_and_releases_lines() {
    let device = MockDevice::new();
    let mut linear = LinearAllocator::new(3, props(false, true, true, false), LinearConfig { linear_size: 1024 }, 64);
    assert_eq!(linear.max_allocation(), 512);
    let (a, got_a) = linear.alloc_block(&device, 100, 16).unwrap();
    assert_eq!(got_a, 1024);
    assert_eq!(a.range(), 0..100);
    let (b, got_b) = linear.alloc_block(&device, 100, 16).unwrap();
    assert_eq!(got_b, 0);
    assert_eq!(b.range(), 112..212);
    assert_eq!(b.memory(), a.memory());
    let m = b.map(10..20).unwrap();
    assert_eq!(m.range(), 122..132);
    assert_eq!(m.ptr(), b.ptr() + 10);
    // Another line is started when the request does not fit.
    let (c, got_c) = linear.alloc_block(&device, 900, 1).unwrap();
    assert_eq!(got_c, 1024);
    assert_eq!(c.range(), 0..900);
    assert_ne!(c.memory(), a.memory());
    // Freeing the first line's blocks releases it once a later line exists.
    assert_eq!(linear.free(&device, a), 0);
    assert_eq!(linear.free(&device, b), 1024);
    assert_eq!(device.freed(), 1);
    assert_eq!(linear.free(&device, c), 0);
    linear.dispose(&device);
    assert_eq!(device.freed(), 2);
}

#[test]
fn linear_holding_one_block_stops_recycling() {
    let device = MockDevice::new();
    let mut linear = LinearAllocator::new(0, props(false, true, true, false), LinearConfig { linear_size: 256 }, 64);
    let (a, _) = linear.alloc_block(&device, 200, 1).unwrap();
    let (b, _) = linear.alloc_block(&device, 200, 1).unwrap();
    let (c, _) = linear.alloc_block(&device, 200, 1).unwrap();
    assert_eq!(linear.free(&device, b), 0);
    assert_eq!(linear.free(&device, c), 0);
    assert_eq!(device.freed(), 0);
    assert_eq!(linear.free(&device, a), 512);
    assert_eq!(device.freed(), 2);
}

#[test]
fn dedicated_allocates_one_object_per_block() {
    let device = MockDevice::new();
    let mut dedicated = DedicatedAllocator::new(1, props(true, true, false, false), 64);
    let (mut a, got) = dedicated.alloc_block(&device, 4096, 256).unwrap();
    assert_eq!(got, 4096);
    assert_eq!(a.range(), 0..4096);
    assert_eq!(a.size(), 4096);
    let m = a.map(&device, 100..200).unwrap();
    assert_eq!(m.range(), 100..200);
    assert!(!m.is_coherent());
    a.unmap(&device);
    assert_eq!(dedicated.free(&device, a), 4096);
    assert_eq!(device.freed(), 1);
}

#[test]
fn dedicated_refuses_to_map_device_memory() {
    let device = MockDevice::new();
    let mut dedicated = DedicatedAllocator::new(0, props(true, false, false, false), 64);
    let (mut a, _) = dedicated.alloc_block(&device, 64, 1).unwrap();
    assert!(matches!(a.map(&device, 0..64), Err(MappingError::HostInvisible)));
}

#[test]
fn dynamic_rounds_blocks_and_shares_chunks() {
    let device = MockDevice::new();
    let mut dynamic = DynamicAllocator::new(0, props(true, false, false, false), dynamic_config(256, 32 * 1024), 64);
    assert_eq!(dynamic.max_allocation(), 32 * 1024);
    let (a, got) = dynamic.alloc_block(&device, 100, 4).unwrap();
    assert_eq!(a.size(), 256);
    assert!(got > 0);
    let (b, got_b) = dynamic.alloc_block(&device, 200, 4).unwrap();
    assert_eq!(got_b, 0);
    assert_eq!(b.size(), 256);
    assert_eq!(b.memory(), a.memory());
    assert_eq!(b.range().start, a.range().start + 256);
    // The alignment counts as a size.
    let (c, _) = dynamic.alloc_block(&device, 8, 512).unwrap();
    assert_eq!(c.size(), 512);
    // Its chunk is a block of 32 KiB, itself from a chunk of 64 such blocks: the whole
    // memory object goes back when the only block is freed.
    assert_eq!(dynamic.free(&device, c), 64 * 32 * 1024);
    assert_eq!(dynamic.free(&device, b), 0);
    // The last block of the chunk gives the chunk's memory back.
    let freed = dynamic.free(&device, a);
    assert_eq!(freed, 64 * 16 * 1024);
    assert_eq!(device.freed(), device.allocated() as usize);
    dynamic.dispose();
}

#[test]
fn dynamic_reuses_the_smallest_free_block() {
    let device = MockDevice::new();
    let mut dynamic = DynamicAllocator::new(0, props(true, false, false, false), dynamic_config(64, 1024), 64);
    let (a, _) = dynamic.alloc_block(&device, 64, 1).unwrap();
    let (b, _) = dynamic.alloc_block(&device, 64, 1).unwrap();
    let (c, _) = dynamic.alloc_block(&device, 64, 1).unwrap();
    let b_start = b.range().start;
    assert_eq!(dynamic.free(&device, b), 0);
    let (d, got) = dynamic.alloc_block(&device, 50, 1).unwrap();
    assert_eq!(got, 0);
    assert_eq!(d.range().start, b_start);
    assert_eq!(dynamic.free(&device, a), 0);
    assert_eq!(dynamic.free(&device, c), 0);
    assert!(dynamic.free(&device, d) > 0);
    dynamic.dispose();
}

#[test]
fn dynamic_maps_host_visible_blocks() {
    let device = MockDevice::new();
    let mut dynamic = DynamicAllocator::new(0, props(false, true, true, false), dynamic_config(64, 1024), 64);
    let (a, _) = dynamic.alloc_block(&device, 64, 1).unwrap();
    let (b, _) = dynamic.alloc_block(&device, 64, 1).unwrap();
    let m = b.map(0..16).unwrap();
    assert_eq!(m.range(), b.range().start..b.range().start + 16);
    assert!(matches!(b.map(0..65), Err(MappingError::OutOfBounds)));
    dynamic.free(&device, a);
    dynamic.free(&device, b);
}

#[test]
fn arena_allocates_sequentially() {
    let device = MockDevice::new();
    let mut arena = ArenaAllocator::new(0, props(false, true, false, false), ArenaConfig { arena_size: 1024 }, 64);
    assert_eq!(arena.max_allocation(), 512);
    let (a, got) = arena.alloc_block(&device, 100, 8).unwrap();
    assert_eq!(got, 1024);
    assert_eq!(a.range(), 0..100);
    let (b, got_b) = arena.alloc_block(&device, 10, 64).unwrap();
    assert_eq!(got_b, 0);
    assert_eq!(b.range(), 128..138);
    assert_eq!(arena.free(&device, a), 0);
    assert_eq!(arena.free(&device, b), 0);
    arena.dispose(&device);
    assert_eq!(device.freed(), 1);
}

#[test]
fn heaps_accept_types_of_unused_heaps() {
    let mut heaps = Heaps::new(
        vec![
            (props(true, false, false, false), 0, HeapsConfig { linear: None, dynamic: None }),
            (props(true, false, false, false), 9, HeapsConfig { linear: None, dynamic: None }),
        ],
        vec![1024 * 1024],
        256,
    );
    let device = MockDevice::new();
    let block = heaps.allocate(&device, 0b01, Data, 4096, 16).unwrap();
    assert_eq!(block.memory_type(), 0);
    heaps.free(&device, block);
    heaps.dispose(&device);
}

struct ExhaustedDevice;

impl Device for ExhaustedDevice {
    fn grants(&self, _index: u32, _size: u64, _raw: u64) -> bool {
        false
    }

    fn maps(&self, _memory: u64, _range: Range<u64>, _ptr: usize) -> bool {
        false
    }

    fn frees(&self, _memory: u64) -> bool {
        true
    }

    fn unmaps(&self, _memory: u64) -> bool {
        true
    }

    fn invalidates(&self, _memory: u64, _range: Range<u64>) -> bool {
        true
    }

    fn flushes(&self, _memory: u64, _range: Range<u64>) -> bool {
        true
    }

    fn allocate(&self, _index: u32, _size: u64) -> Result<u64, AllocationError> {
        Err(AllocationError::OutOfMemoryError(OutOfMemoryError::OutOfDeviceMemory))
    }

    fn free(&self, _memory: u64) {}

    fn map(&self, _memory: u64, _range: Range<u64>) -> Result<usize, MappingError> {
        Err(MappingError::MappingFailed)
    }

    fn unmap(&self, _memory: u64) {}

    fn invalidate(&self, _memory: u64, _range: Range<u64>) -> Result<(), OutOfMemoryError> {
        Ok(())
    }

    fn flush(&self, _memory: u64, _range: Range<u64>) -> Result<(), OutOfMemoryError> {
        Ok(())
    }
}

#[test]
fn dedicated_passes_on_the_device_error() {
    let device = ExhaustedDevice;
    let mut dedicated = DedicatedAllocator::new(0, props(true, false, false, false), 64);
    let r = dedicated.alloc_block(&device, 64, 1);
    assert!(matches!(
        r,
        Err(rendy::memory::error::MemoryError::AllocationError(AllocationError::OutOfMemoryError(
            OutOfMemoryError::OutOfDeviceMemory
        )))
    ));
}

#[test]
fn dynamic_serves_free_blocks_without_the_device() {
    let device = MockDevice::new();
    let mut heaps = init();
    let a = heaps.allocate(&device, 0b1, Data, 256, 1).unwrap();
    let b = heaps.allocate(&device, 0b1, Data, 256, 1).unwrap();
    heaps.free(&device, b);
    let failing = ExhaustedDevice;
    let c = heaps.allocate(&failing, 0b1, Data, 256, 1).unwrap();
    assert_eq!(c.range().end - c.range().start, 256);
    heaps.free(&device, c);
    heaps.free(&device, a);
}

#[test]
fn arena_blocks_stay_freeable_after_the_head_arena_is_released() {
    let device = MockDevice::new();
    let mut arena = ArenaAllocator::new(0, props(false, true, false, false), ArenaConfig { arena_size: 1000 }, 64);
    let (b0, got0) = arena.alloc_block(&device, 600, 1).unwrap();
    let (b1, got1) = arena.alloc_block(&device, 600, 1).unwrap();
    assert_eq!((got0, got1), (1000, 1000));
    assert_eq!(arena.free(&device, b0), 1000);
    assert_eq!(arena.free(&device, b1), 0);
    arena.dispose(&device);
    assert_eq!(device.freed(), 2);
}

#[test]
fn arena_serves_empty_blocks() {
    let device = MockDevice::new();
    let mut arena = ArenaAllocator::new(0, props(false, true, false, false), ArenaConfig { arena_size: 1024 }, 64);
    let (a, got) = arena.alloc_block(&device, 0, 1).unwrap();
    assert_eq!(got, 1024);
    assert_eq!(a.range(), 0..0);
    assert_eq!(arena.free(&device, a), 0);
    arena.dispose(&device);
}

#[test]
fn heaps_init() {
    let heaps = init();
    drop(heaps);
}

fn check_allocation<U: rendy::memory::usage::MemoryUsage + Copy>(
    heaps: &mut Heaps,
    device: &MockDevice,
    mask: u32,
    usage: U,
    size: u64,
    align: u64,
) -> rendy::memory::heaps::MemoryBlock {
    let block = heaps.allocate(device, mask, usage, size, align).unwrap();
    assert!(block.range().end - block.range().start >= size);
    assert_eq!(block.range().start % align, 0, "block allocated without requested align {}", align);
    assert!(block.properties().contains(usage.properties_required()));
    assert_ne!((1u32 << block.memory_type()) & mask, 0);
    block
}

#[test]
fn blocks_test() {
    let mut heaps = init();
    let device = MockDevice::new();
    let mut blocks = Vec::new();
    for i in 0..10u32 {
        for j in 0..10u32 {
            let size = 1u64 << i;
            let align = 1u64 << j;
            let mask = ((i + j) % 3) | (1 << ((i * j) % 2));
            blocks.push(check_allocation(&mut heaps, &device, mask, Data, size, align));
            blocks.push(check_allocation(&mut heaps, &device, mask << 1, Dynamic, size, align));
            blocks.push(check_allocation(&mut heaps, &device, mask << 1, Upload, size, align));
            blocks.push(check_allocation(&mut heaps, &device, mask << 1, Download, size, align));
            if (i + j) % 2 == 0 {
                let block = blocks.remove(blocks.len() / 2);
                heaps.free(&device, block);
            }
        }
    }
    for block in blocks {
        heaps.free(&device, block);
    }
    heaps.dispose(&device);
}

#[test]
fn dynamic_blocks_are_aligned() {
    let device = MockDevice::new();
    let mut dynamic = DynamicAllocator::new(0, props(true, false, false, false), dynamic_config(32, 1024), 64);
    let (a, _) = dynamic.alloc_block(&device, 96, 1).unwrap();
    assert_eq!(a.size(), 96);
    let (b, _) = dynamic.alloc_block(&device, 96, 64).unwrap();
    assert_eq!(b.size(), 128);
    assert_eq!(b.range().start % 64, 0);
    let (c, _) = dynamic.alloc_block(&device, 96, 64).unwrap();
    assert_eq!(c.range().start % 64, 0);
    assert_eq!(dynamic.free(&device, c), 0);
    dynamic.free(&device, b);
    dynamic.free(&device, a);
    assert_eq!(device.freed(), device.allocated() as usize);
    dynamic.dispose();
}

#[test]
fn linear_serves_empty_blocks() {
    let device = MockDevice::new();
    let mut linear = LinearAllocator::new(3, props(false, true, true, false), LinearConfig { linear_size: 1024 }, 64);
    let (a, got_a) = linear.alloc_block(&device, 100, 1).unwrap();
    assert_eq!(got_a, 1024);
    let (e, got_e) = linear.alloc_block(&device, 0, 16).unwrap();
    assert_eq!(got_e, 0);
    assert_eq!(e.range(), 112..112);
    assert_eq!(linear.free(&device, e), 0);
    assert_eq!(linear.free(&device, a), 0);
    linear.dispose(&device);
    assert_eq!(device.freed(), 1);
}

#[test]
fn allocators_hand_memory_back_to_the_device() {
    let device = MockDevice::new();
    let mut dedicated = DedicatedAllocator::new(1, props(true, true, false, false), 64);
    let (a, _) = dedicated.alloc_block(&device, 4096, 1).unwrap();
    let raw = a.memory();
    assert!(device.grants(1, 4096, raw));
    dedicated.free(&device, a);
    assert!(device.frees(raw));

    let mut arena = ArenaAllocator::new(0, props(false, true, false, false), ArenaConfig { arena_size: 1000 }, 64);
    let (b0, _) = arena.alloc_block(&device, 600, 1).unwrap();
    let (b1, _) = arena.alloc_block(&device, 600, 1).unwrap();
    let (m0, m1) = (b0.memory(), b1.memory());
    arena.free(&device, b0);
    assert!(device.frees(m0));
    assert!(!device.frees(m1));
    arena.free(&device, b1);
    arena.dispose(&device);
    assert!(device.frees(m1));

    let mut linear = LinearAllocator::new(3, props(false, true, true, false), LinearConfig { linear_size: 1024 }, 64);
    let (c, _) = linear.alloc_block(&device, 100, 1).unwrap();
    let mc = c.memory();
    linear.free(&device, c);
    assert!(!device.frees(mc));
    linear.dispose(&device);
    assert!(device.frees(mc));
}
