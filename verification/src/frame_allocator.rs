//! The boot-info frame allocator: hands out previously unused physical
//! frames, one at a time, by walking the usable-frame enumeration of a fixed
//! region list behind a monotonically increasing cursor.

use vstd::prelude::*;
use bootloader::bootinfo::MemoryMap;
use crate::addr::Frame;
use crate::bootinfo::memory_map_entries;
use crate::bootinfo::regions_from_memory_map;
use crate::bootinfo::regions_of_entries;
use crate::region::Region;
use crate::region::usable_frames_of;

verus! {

/// A frame allocator over the boot environment's memory region list.
///
/// Its only mutable state is the cursor into the usable-frame enumeration and
/// the running count of frames handed out. The cursor never decreases, so a
/// frame once returned is never returned again; there is no deallocation
/// path.
pub struct BootInfoFrameAllocator {
    regions: Vec<Region>,
    next: usize,
    allocated_frames: usize,
}

impl BootInfoFrameAllocator {
    /// The region list the allocator was built over.
    pub closed spec fn regions_seq(&self) -> Seq<Region> {
        self.regions@
    }

    /// The cursor: how many frames of the enumeration have been passed over.
    pub closed spec fn cursor(&self) -> nat {
        self.next as nat
    }

    /// The running count of frames handed out so far.
    pub closed spec fn allocated(&self) -> nat {
        self.allocated_frames as nat
    }

    /// The usable-frame enumeration the allocator draws from.
    pub open spec fn frames(&self) -> Seq<Frame> {
        usable_frames_of(self.regions_seq())
    }

    /// The allocator's invariant: the cursor and the count advance in step
    /// and never run past the enumeration.
    pub closed spec fn wf(&self) -> bool {
        &&& self.next == self.allocated_frames
        &&& self.next as nat <= self.frames().len()
    }

    /// Builds an allocator over the given region list, with the cursor and
    /// the allocated count at zero.
    ///
    /// The caller vouches that every region marked usable is genuinely unused
    /// physical memory; the allocator trusts the list entirely and never
    /// validates it.
    pub fn from_region_list(regions: Vec<Region>) -> (allocator: BootInfoFrameAllocator)
        ensures
            allocator.wf(),
            allocator.regions_seq() == regions@,
            allocator.cursor() == 0,
            allocator.allocated() == 0,
    {
        BootInfoFrameAllocator { regions, next: 0, allocated_frames: 0 }
    }

    /// Builds an allocator from the firmware's memory map, with the cursor
    /// and the allocated count at zero.
    ///
    /// The caller vouches that every region the map marks usable is
    /// genuinely unused physical memory; the allocator trusts the map
    /// entirely and never validates it.
    pub fn init(memory_map: &MemoryMap) -> (allocator: BootInfoFrameAllocator)
        ensures
            allocator.wf(),
            allocator.regions_seq() == regions_of_entries(memory_map_entries(*memory_map)),
            allocator.cursor() == 0,
            allocator.allocated() == 0,
            forall|i: int|
                0 <= i < allocator.regions_seq().len() ==> (#[trigger] allocator.regions_seq()[i]).wf(),
    {
        let regions = regions_from_memory_map(memory_map);
        BootInfoFrameAllocator::from_region_list(regions)
    }

    /// Materializes the usable-frame enumeration: the usable regions' spans,
    /// stepped through in page-size strides, one frame per stride, a trailing
    /// partial page dropped. Recomputed from the region list on every call;
    /// it holds no state of its own.
    pub fn usable_frames(&self) -> (frames: Vec<Frame>)
        ensures
            frames@ == self.frames(),
    {
        let ghost all = self.regions@;
        let mut frames: Vec<Frame> = Vec::new();
        let mut i: usize = 0;
        while i < self.regions.len()
            invariant
                i <= self.regions@.len(),
                self.regions@ == all,
                frames@ == usable_frames_of(all.take(i as int)),
            decreases self.regions@.len() - i,
        {
            let region = self.regions[i];
            proof {
                assert(all.take(i + 1).drop_last() =~= all.take(i as int));
                assert(all.take(i + 1).last() == region);
            }
            if region.usable && region.start <= region.end {
                let count: u64 = (region.end - region.start) / 4096;
                proof {
                    vstd::arithmetic::div_mod::lemma_fundamental_div_mod(
                        (region.end - region.start) as int,
                        4096,
                    );
                }
                let mut j: u64 = 0;
                while j < count
                    invariant
                        j <= count,
                        count == region.frame_count(),
                        region.usable && region.start <= region.end,
                        count * 4096 <= region.end - region.start,
                        frames@ == usable_frames_of(all.take(i as int)) + region.frames().take(
                            j as int,
                        ),
                    decreases count - j,
                {
                    proof {
                        assert((j + 1) * 4096 <= count * 4096) by (nonlinear_arith)
                            requires
                                j + 1 <= count,
                        ;
                        assert(region.frames().take(j + 1) =~= region.frames().take(
                            j as int,
                        ).push(region.frames()[j as int]));
                    }
                    frames.push(Frame { start: region.start + j * 4096 });
                    j = j + 1;
                }
                proof {
                    assert(region.frames().take(count as int) =~= region.frames());
                    assert(usable_frames_of(all.take(i + 1)) == usable_frames_of(all.take(i as int))
                        + region.frames());
                }
            } else {
                proof {
                    assert(region.frames().len() == 0);
                    assert(usable_frames_of(all.take(i + 1)) =~= usable_frames_of(
                        all.take(i as int),
                    ));
                }
            }
            i = i + 1;
        }
        proof {
            assert(all.take(all.len() as int) =~= all);
        }
        frames
    }

    /// The running total of frames handed out.
    pub fn allocated_frame_count(&self) -> (count: usize)
        ensures
            count as nat == self.allocated(),
    {
        self.allocated_frames
    }

    /// The number of usable frames across the whole region list, recomputed
    /// from it on each call.
    pub fn total_frames(&self) -> (count: usize)
        ensures
            count as nat == self.frames().len(),
    {
        let frames = self.usable_frames();
        frames.len()
    }

    /// Hands out the frame at the cursor, if one remains: the enumeration is
    /// re-derived from the region list, the element at the cursor is
    /// returned, and the cursor and the allocated count each advance by one.
    /// Past the end of the enumeration, nothing is returned and nothing
    /// changes; exhaustion is a normal outcome, not a fault.
    pub fn allocate_frame(&mut self) -> (result: Option<Frame>)
        requires
            old(self).wf(),
        ensures
            final(self).wf(),
            final(self).regions_seq() == old(self).regions_seq(),
            old(self).cursor() < old(self).frames().len() ==> {
                &&& result == Some(old(self).frames()[old(self).cursor() as int])
                &&& final(self).cursor() == old(self).cursor() + 1
                &&& final(self).allocated() == old(self).allocated() + 1
            },
            old(self).cursor() >= old(self).frames().len() ==> {
                &&& result is None
                &&& *final(self) == *old(self)
            },
    {
        let frames = self.usable_frames();
        if self.next < frames.len() {
            let frame = frames[self.next];
            self.next = self.next + 1;
            self.allocated_frames = self.allocated_frames + 1;
            Some(frame)
        } else {
            None
        }
    }
}

/// Count consistency: in any allocator state reachable through this module's
/// operations, the allocated count equals the cursor — every advance of the
/// cursor was one frame handed out, so `allocated_frame_count` reports
/// exactly the number of successful allocations.
pub proof fn lemma_count_matches_cursor(allocator: BootInfoFrameAllocator)
    requires
        allocator.wf(),
    ensures
        allocator.allocated() == allocator.cursor(),
{
}

/// Exhaustion is permanent: once the allocated count has reached the total
/// number of usable frames, the cursor stands at the end of the enumeration,
/// so by `allocate_frame`'s contract every further allocation returns
/// nothing, changes nothing, and leaves the count fixed at the total.
pub proof fn lemma_exhaustion_is_permanent(allocator: BootInfoFrameAllocator)
    requires
        allocator.wf(),
        allocator.allocated() == allocator.frames().len(),
    ensures
        allocator.cursor() >= allocator.frames().len(),
{
}

/// Monotonic allocation: each successful allocation returns the enumeration
/// element at the cursor and advances the cursor by one, so over an ordered
/// region list the frames an allocator hands out are pairwise distinct — no
/// frame is ever given twice.
pub proof fn lemma_allocations_pairwise_distinct(allocator: BootInfoFrameAllocator)
    requires
        crate::region::regions_ordered(allocator.regions_seq()),
    ensures
        forall|i: int, j: int|
            0 <= i < j < allocator.frames().len() ==> #[trigger] allocator.frames()[i]
                != #[trigger] allocator.frames()[j],
{
    crate::region::lemma_frames_pairwise_distinct(allocator.regions_seq());
}

} // verus!
