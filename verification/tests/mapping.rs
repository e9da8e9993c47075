use boot_memory::init;
use boot_memory::map_page;
use boot_memory::BootInfoFrameAllocator;
use boot_memory::Frame;
use boot_memory::MapError;
use boot_memory::MapFailure;
use boot_memory::MappingFlags;
use boot_memory::Page;
use boot_memory::Region;

const OFFSET: u64 = 0xFFFF_8000_0000_0000;

fn flags() -> MappingFlags {
    MappingFlags { writable: true, user_accessible: false, no_execute: false }
}

fn small_allocator() -> BootInfoFrameAllocator {
    BootInfoFrameAllocator::from_region_list(vec![Region {
        start: 0x10000,
        end: 0x13000,
        usable: true,
    }])
}

#[test]
fn map_returns_the_next_frame_and_records_it() {
    let mut context = init(OFFSET);
    let mut allocator = small_allocator();
    let page = Page { start: 0x4000_0000 };

    let frame = map_page(page, flags(), &mut context, &mut allocator).expect("mapping succeeds");
    assert_eq!(frame, Frame { start: 0x10000 });
    assert_eq!(allocator.allocated_frame_count(), 1);

    let entry = context.lookup(page).expect("the page is now recorded");
    assert_eq!(entry.frame, frame);
    assert_eq!(entry.flags, flags());

    // The frame's memory is reachable through the physical-memory alias.
    assert_eq!(context.phys_to_virt(frame), OFFSET + 0x10000);
}

#[test]
fn mapping_twice_fails_and_consumes_no_second_frame() {
    let mut context = init(OFFSET);
    let mut allocator = small_allocator();
    let page = Page { start: 0x4000_0000 };

    let frame = map_page(page, flags(), &mut context, &mut allocator).expect("first mapping");
    let count_after_first = allocator.allocated_frame_count();

    let second = map_page(page, flags(), &mut context, &mut allocator);
    assert_eq!(second, Err(MapError::MappingError(MapFailure::PageAlreadyMapped(frame))));
    assert_eq!(allocator.allocated_frame_count(), count_after_first);

    // A different page still maps, to the next frame of the enumeration.
    let other = Page { start: 0x4000_1000 };
    let other_frame = map_page(other, flags(), &mut context, &mut allocator).expect("other page");
    assert_eq!(other_frame, Frame { start: 0x11000 });
    assert_eq!(allocator.allocated_frame_count(), count_after_first + 1);
}

#[test]
fn map_fails_cleanly_when_no_frame_remains() {
    let mut context = init(OFFSET);
    let mut allocator = BootInfoFrameAllocator::from_region_list(Vec::new());
    let page = Page { start: 0x4000_0000 };

    let result = map_page(page, flags(), &mut context, &mut allocator);
    assert_eq!(result, Err(MapError::FrameAllocationFailed));
    assert_eq!(allocator.allocated_frame_count(), 0);
    assert!(context.lookup(page).is_none());
}

#[test]
fn lookup_finds_nothing_before_any_mapping() {
    let context = init(OFFSET);
    assert!(context.lookup(Page { start: 0x0 }).is_none());
    assert!(context.lookup(Page { start: 0x7000 }).is_none());
}

#[test]
fn error_descriptions() {
    assert_eq!(MapError::FrameAllocationFailed.description(), "Frame allocation failed");
    let already = MapError::MappingError(MapFailure::PageAlreadyMapped(Frame { start: 0x1000 }));
    assert_eq!(already.description(), "Mapping error");
}
