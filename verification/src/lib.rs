//! Early-boot physical and virtual memory management: a frame allocator
//! driven by the firmware's memory map, and an address-translation context
//! that hands out fresh virtual-to-physical page mappings.

pub mod addr;
pub mod bootinfo;
pub mod frame_allocator;
pub mod paging;
pub mod region;

pub use addr::Frame;
pub use addr::Page;
pub use frame_allocator::BootInfoFrameAllocator;
pub use paging::init;
pub use paging::map_page;
pub use paging::Context;
pub use paging::MapError;
pub use paging::MapFailure;
pub use paging::MappingEntry;
pub use paging::MappingFlags;
pub use region::Region;
