//! Reading the firmware's memory map. The bootloader hands the kernel a
//! fixed table of physical memory regions; this module turns it into the
//! crate's own region descriptors, on which everything else is verified.

use vstd::prelude::*;
use bootloader::bootinfo::MemoryMap;
use bootloader::bootinfo::MemoryRegionType;
use crate::region::Region;

verus! {

#[verifier::external_type_specification]
#[verifier::external_body]
pub struct ExMemoryMap(MemoryMap);

#[verifier::external_type_specification]
#[verifier::external_body]
pub struct ExMemoryRegion(bootloader::bootinfo::MemoryRegion);

/// What a memory map holds: its region descriptors in table order, each as
/// the frame number of its first frame, the frame number one past its last
/// frame, and whether the region is free for use.
pub uninterp spec fn memory_map_entries(memory_map: MemoryMap) -> Seq<(u64, u64, bool)>;

/// Relies on bootloader's `MemoryMap`: iterating it yields its region
/// descriptors in table order; each carries a `FrameRange` of two frame
/// numbers (start inclusive, end exclusive) and a `MemoryRegionType` whose
/// `Usable` variant marks memory free for use; its backing store is a
/// 64-entry array, so it never yields more than 64 descriptors.
#[verifier::external_body]
fn read_memory_map(memory_map: &MemoryMap) -> (entries: Vec<(u64, u64, bool)>)
    ensures
        entries@ == memory_map_entries(*memory_map),
        entries@.len() <= 64,
{
    let mut entries = Vec::new();
    for region in memory_map.iter() {
        let usable = region.region_type == MemoryRegionType::Usable;
        entries.push((region.range.start_frame_number, region.range.end_frame_number, usable));
    }
    entries
}

/// The largest frame number a region descriptor may carry and still denote a
/// physical byte address: one page beyond it would not fit in 64 bits.
pub const MAX_FRAME_NUMBER: u64 = 0x10_0000_0000_0000;

/// A raw descriptor is taken over only when its range is not inverted and
/// its frame numbers denote representable byte addresses.
pub open spec fn entry_valid(entry: (u64, u64, bool)) -> bool {
    entry.0 <= entry.1 && entry.1 < MAX_FRAME_NUMBER
}

/// The region a raw descriptor denotes: its frame numbers scaled to byte
/// addresses.
pub open spec fn entry_region(entry: (u64, u64, bool)) -> Region {
    Region { start: (entry.0 * 4096) as u64, end: (entry.1 * 4096) as u64, usable: entry.2 }
}

/// The region list a raw descriptor table denotes: each valid descriptor's
/// region, in table order; malformed descriptors are dropped.
pub open spec fn regions_of_entries(entries: Seq<(u64, u64, bool)>) -> Seq<Region>
    decreases entries.len(),
{
    if entries.len() == 0 {
        Seq::empty()
    } else {
        regions_of_entries(entries.drop_last()) + (if entry_valid(entries.last()) {
            seq![entry_region(entries.last())]
        } else {
            Seq::empty()
        })
    }
}

/// Regions read off a descriptor table are no more numerous than the
/// descriptors, are well formed, and each spans fewer frames than
/// `MAX_FRAME_NUMBER`.
pub proof fn lemma_regions_of_entries_props(entries: Seq<(u64, u64, bool)>)
    ensures
        regions_of_entries(entries).len() <= entries.len(),
        forall|i: int|
            0 <= i < regions_of_entries(entries).len() ==> (#[trigger] regions_of_entries(
                entries,
            )[i]).wf(),
        forall|i: int|
            0 <= i < regions_of_entries(entries).len() ==> (#[trigger] regions_of_entries(
                entries,
            )[i]).frame_count() < MAX_FRAME_NUMBER,
    decreases entries.len(),
{
    if entries.len() > 0 {
        let pre = entries.drop_last();
        let last = entries.last();
        lemma_regions_of_entries_props(pre);
        if entry_valid(last) {
            lemma_entry_region_props(last);
        }
    }
}

/// A valid descriptor's region is well formed and spans exactly the
/// difference of its frame numbers.
proof fn lemma_entry_region_props(entry: (u64, u64, bool))
    requires
        entry_valid(entry),
    ensures
        entry_region(entry).wf(),
        entry_region(entry).frame_count() <= entry.1 - entry.0,
{
    let region = entry_region(entry);
    let span = (entry.1 - entry.0) as int;
    vstd::arithmetic::div_mod::lemma_fundamental_div_mod_converse(
        entry.0 as int * 4096,
        4096,
        entry.0 as int,
        0,
    );
    assert(region.end - region.start == span * 4096);
    vstd::arithmetic::div_mod::lemma_fundamental_div_mod_converse(span * 4096, 4096, span, 0);
}

/// Reads the firmware's memory map into the crate's own region descriptors:
/// one region per valid raw descriptor, frame numbers scaled to byte
/// addresses, in table order.
pub fn regions_from_memory_map(memory_map: &MemoryMap) -> (regions: Vec<Region>)
    ensures
        regions@ == regions_of_entries(memory_map_entries(*memory_map)),
        regions@.len() <= 64,
        forall|i: int| 0 <= i < regions@.len() ==> (#[trigger] regions@[i]).wf(),
{
    let entries = read_memory_map(memory_map);
    let mut regions: Vec<Region> = Vec::new();
    let mut i: usize = 0;
    proof {
        lemma_regions_of_entries_props(entries@);
    }
    while i < entries.len()
        invariant
            i <= entries@.len(),
            entries@.len() <= 64,
            regions@ == regions_of_entries(entries@.take(i as int)),
            regions@.len() <= i,
        decreases entries@.len() - i,
    {
        let (start_frame, end_frame, usable) = entries[i];
        proof {
            assert(entries@.take(i + 1).drop_last() =~= entries@.take(i as int));
            assert(entries@.take(i + 1).last() == entries@[i as int]);
        }
        if start_frame <= end_frame && end_frame < MAX_FRAME_NUMBER {
            regions.push(
                Region { start: start_frame * 4096, end: end_frame * 4096, usable },
            );
            proof {
                assert(regions@ =~= regions_of_entries(entries@.take(i + 1)));
            }
        } else {
            proof {
                assert(regions@ =~= regions_of_entries(entries@.take(i + 1)));
            }
        }
        i = i + 1;
    }
    proof {
        assert(entries@.take(entries@.len() as int) =~= entries@);
    }
    regions
}

} // verus!
