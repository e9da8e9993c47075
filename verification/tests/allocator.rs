use boot_memory::BootInfoFrameAllocator;
use boot_memory::Frame;
use boot_memory::Region;

fn region(start: u64, end: u64, usable: bool) -> Region {
    Region { start, end, usable }
}

#[test]
fn scenario_three_region_list() {
    let regions = vec![
        region(0x0, 0x3000, true),
        region(0x3000, 0x4000, false),
        region(0x4000, 0x6000, true),
    ];
    let mut allocator = BootInfoFrameAllocator::from_region_list(regions);
    assert_eq!(allocator.total_frames(), 5);

    let frames = allocator.usable_frames();
    let starts: Vec<u64> = frames.iter().map(|f| f.start).collect();
    assert_eq!(starts, vec![0x0, 0x1000, 0x2000, 0x4000, 0x5000]);

    assert_eq!(allocator.allocate_frame(), Some(Frame { start: 0x0 }));
    assert_eq!(allocator.allocate_frame(), Some(Frame { start: 0x1000 }));
    assert_eq!(allocator.allocate_frame(), Some(Frame { start: 0x2000 }));
    assert_eq!(allocator.allocated_frame_count(), 3);
}

#[test]
fn allocation_is_monotonic_and_distinct() {
    let regions = vec![region(0x10000, 0x14000, true), region(0x20000, 0x22000, true)];
    let mut allocator = BootInfoFrameAllocator::from_region_list(regions);
    let total = allocator.total_frames();
    assert_eq!(total, 6);
    let expected = allocator.usable_frames();

    let mut seen: Vec<Frame> = Vec::new();
    for i in 0..total {
        let frame = allocator.allocate_frame().expect("a frame should remain");
        assert_eq!(frame, expected[i]);
        assert!(!seen.contains(&frame));
        seen.push(frame);
    }
}

#[test]
fn exhaustion_is_permanent() {
    let regions = vec![region(0x8000, 0xA000, true)];
    let mut allocator = BootInfoFrameAllocator::from_region_list(regions);
    assert_eq!(allocator.total_frames(), 2);
    assert!(allocator.allocate_frame().is_some());
    assert!(allocator.allocate_frame().is_some());
    assert_eq!(allocator.allocate_frame(), None);
    assert_eq!(allocator.allocate_frame(), None);
    assert_eq!(allocator.allocated_frame_count(), 2);
    assert_eq!(allocator.total_frames(), 2);
}

#[test]
fn count_matches_successful_allocations() {
    let regions = vec![region(0x0, 0x2000, true), region(0x5000, 0x6000, true)];
    let mut allocator = BootInfoFrameAllocator::from_region_list(regions);
    let mut successes = 0usize;
    for _ in 0..10 {
        if allocator.allocate_frame().is_some() {
            successes += 1;
        }
        assert_eq!(allocator.allocated_frame_count(), successes);
    }
    assert_eq!(successes, 3);
}

#[test]
fn non_usable_regions_contribute_nothing() {
    let with_reserved = vec![
        region(0x0, 0x1000, true),
        region(0x1000, 0x100000, false),
        region(0x100000, 0x102000, true),
    ];
    let without = vec![region(0x0, 0x1000, true), region(0x100000, 0x102000, true)];
    let a = BootInfoFrameAllocator::from_region_list(with_reserved);
    let b = BootInfoFrameAllocator::from_region_list(without);
    assert_eq!(a.total_frames(), 3);
    assert_eq!(a.usable_frames(), b.usable_frames());

    let only_reserved = vec![region(0x0, 0x4000_0000, false)];
    let c = BootInfoFrameAllocator::from_region_list(only_reserved);
    assert_eq!(c.total_frames(), 0);
}

#[test]
fn trailing_partial_page_is_dropped() {
    // k whole pages plus r leftover bytes yield exactly k frames.
    let cases: &[(u64, usize)] = &[
        (0x0FFF, 0),
        (0x1000, 1),
        (0x1001, 1),
        (0x2FFF, 2),
        (0x3000, 3),
    ];
    for &(end, expected) in cases {
        let allocator = BootInfoFrameAllocator::from_region_list(vec![region(0, end, true)]);
        assert_eq!(allocator.total_frames(), expected, "end {:#x}", end);
    }

    let allocator =
        BootInfoFrameAllocator::from_region_list(vec![region(0x7000, 0x7000 + 4 * 4096 + 123, true)]);
    assert_eq!(allocator.total_frames(), 4);
}

#[test]
fn empty_region_list_is_immediately_exhausted() {
    let mut allocator = BootInfoFrameAllocator::from_region_list(Vec::new());
    assert_eq!(allocator.total_frames(), 0);
    assert_eq!(allocator.allocate_frame(), None);
    assert_eq!(allocator.allocated_frame_count(), 0);
}

#[test]
fn containing_address_rounds_down() {
    assert_eq!(Frame::containing_address(0x1234).start, 0x1000);
    assert_eq!(Frame::containing_address(0x1000).start, 0x1000);
    assert_eq!(Frame::containing_address(0xFFF).start, 0x0);
    assert_eq!(boot_memory::Page::containing_address(0xDEAD_BEEF).start, 0xDEAD_B000);
}
