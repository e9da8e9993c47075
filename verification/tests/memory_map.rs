use bootloader::bootinfo::FrameRange;
use bootloader::bootinfo::MemoryMap;
use bootloader::bootinfo::MemoryRegion;
use bootloader::bootinfo::MemoryRegionType;
use boot_memory::bootinfo::regions_from_memory_map;
use boot_memory::BootInfoFrameAllocator;
use boot_memory::Frame;
use boot_memory::Region;

fn map_of(regions: &[(u64, u64, MemoryRegionType)]) -> MemoryMap {
    let mut memory_map = MemoryMap::new();
    for &(start, end, region_type) in regions {
        memory_map.add_region(MemoryRegion { range: FrameRange::new(start, end), region_type });
    }
    memory_map
}

#[test]
fn allocator_from_memory_map() {
    let memory_map = map_of(&[
        (0x0, 0x3000, MemoryRegionType::Usable),
        (0x3000, 0x4000, MemoryRegionType::Reserved),
        (0x4000, 0x6000, MemoryRegionType::Usable),
    ]);
    let mut allocator = BootInfoFrameAllocator::init(&memory_map);
    assert_eq!(allocator.total_frames(), 5);
    assert_eq!(allocator.allocate_frame(), Some(Frame { start: 0x0 }));
    assert_eq!(allocator.allocate_frame(), Some(Frame { start: 0x1000 }));
    assert_eq!(allocator.allocate_frame(), Some(Frame { start: 0x2000 }));
    assert_eq!(allocator.allocate_frame(), Some(Frame { start: 0x4000 }));
    assert_eq!(allocator.allocate_frame(), Some(Frame { start: 0x5000 }));
    assert_eq!(allocator.allocate_frame(), None);
    assert_eq!(allocator.allocated_frame_count(), 5);
}

#[test]
fn regions_keep_bounds_and_usability() {
    let memory_map = map_of(&[
        (0x100000, 0x800000, MemoryRegionType::Usable),
        (0x800000, 0x900000, MemoryRegionType::InUse),
        (0x900000, 0xA00000, MemoryRegionType::Kernel),
    ]);
    let regions = regions_from_memory_map(&memory_map);
    assert_eq!(
        regions,
        vec![
            Region { start: 0x100000, end: 0x800000, usable: true },
            Region { start: 0x800000, end: 0x900000, usable: false },
            Region { start: 0x900000, end: 0xA00000, usable: false },
        ]
    );
}

#[test]
fn only_the_usable_type_counts_as_usable() {
    let kinds = [
        MemoryRegionType::InUse,
        MemoryRegionType::Reserved,
        MemoryRegionType::AcpiReclaimable,
        MemoryRegionType::KernelStack,
        MemoryRegionType::PageTable,
        MemoryRegionType::Bootloader,
    ];
    for (i, &kind) in kinds.iter().enumerate() {
        let base = 0x10000 * (i as u64 + 1);
        let memory_map = map_of(&[(base, base + 0x4000, kind)]);
        let allocator = BootInfoFrameAllocator::init(&memory_map);
        assert_eq!(allocator.total_frames(), 0, "{:?}", kind);
    }

    let memory_map = map_of(&[(0x10000, 0x14000, MemoryRegionType::Usable)]);
    let allocator = BootInfoFrameAllocator::init(&memory_map);
    assert_eq!(allocator.total_frames(), 4);
}
