//! Physical memory region descriptors and the usable-frame enumeration they
//! induce: usable regions are stepped through in page-size strides, one frame
//! per stride, and a trailing partial page is dropped.

use vstd::prelude::*;
use crate::addr::Frame;
use crate::addr::page_aligned;

verus! {

/// A contiguous physical address range `[start, end)` tagged with whether it
/// is free for use. Produced once by the boot environment and never mutated.
#[derive(Clone, Copy, Debug, PartialEq, Eq, Structural)]
pub struct Region {
    pub start: u64,
    pub end: u64,
    pub usable: bool,
}

impl Region {
    /// A well-formed region starts on a page boundary and does not end before
    /// it starts.
    pub open spec fn wf(self) -> bool {
        page_aligned(self.start) && self.start <= self.end
    }

    /// How many whole pages fit in the region's span, if it is usable at all.
    /// A final partial page does not count.
    pub open spec fn frame_count(self) -> nat {
        if self.usable && self.start <= self.end {
            ((self.end - self.start) as nat) / 4096
        } else {
            0
        }
    }

    /// The frames the region contributes to the usable-frame enumeration:
    /// one per whole page of a usable region, in increasing address order.
    pub open spec fn frames(self) -> Seq<Frame> {
        Seq::new(self.frame_count(), |i: int| Frame { start: (self.start + i * 4096) as u64 })
    }
}

/// The usable-frame enumeration of a region list: each region's frames in
/// turn, in list order.
pub open spec fn usable_frames_of(regions: Seq<Region>) -> Seq<Frame>
    decreases regions.len(),
{
    if regions.len() == 0 {
        Seq::empty()
    } else {
        usable_frames_of(regions.drop_last()) + regions.last().frames()
    }
}

/// The number of usable frames a region list yields in total.
pub open spec fn total_usable_frames(regions: Seq<Region>) -> nat {
    usable_frames_of(regions).len()
}

/// A region list is ordered when its entries are well-formed and pairwise
/// disjoint in increasing address order.
pub open spec fn regions_ordered(regions: Seq<Region>) -> bool {
    (forall|i: int| 0 <= i < regions.len() ==> #[trigger] regions[i].wf())
        && (forall|i: int, j: int|
        0 <= i < j < regions.len() ==> #[trigger] regions[i].end <= #[trigger] regions[j].start)
}

/// Every frame of a region lies inside the region's span: at or above its
/// start, and a whole page below its end.
pub proof fn lemma_region_frames_in_span(region: Region)
    ensures
        forall|i: int|
            0 <= i < region.frames().len() ==> region.start <= (#[trigger] region.frames()[i]).start
                && region.frames()[i].start + 4096 <= region.end,
{
    if region.frame_count() > 0 {
        let k = region.frame_count() as int;
        vstd::arithmetic::div_mod::lemma_fundamental_div_mod((region.end - region.start) as int, 4096);
        assert(k * 4096 <= region.end - region.start);
        assert forall|i: int| 0 <= i < region.frames().len() implies region.start
            <= (#[trigger] region.frames()[i]).start && region.frames()[i].start + 4096
            <= region.end by {
            assert((i + 1) * 4096 <= k * 4096) by (nonlinear_arith)
                requires
                    i + 1 <= k,
            ;
            assert(region.start + i * 4096 + 4096 <= region.end);
        }
    }
}

/// A usable region spanning `k` whole pages plus `r` leftover bytes yields
/// exactly `k` frames: a trailing partial page is never yielded.
pub proof fn lemma_stride_frame_count(region: Region, k: nat, r: nat)
    requires
        region.usable,
        r < 4096,
        region.end == region.start + k * 4096 + r,
    ensures
        region.frames().len() == k,
{
    vstd::arithmetic::div_mod::lemma_fundamental_div_mod_converse(
        (region.end - region.start) as int,
        4096,
        k as int,
        r as int,
    );
}

/// A region that is not usable contributes no frames at all: removing it from
/// the list leaves the usable-frame enumeration unchanged, whatever its size
/// or position.
pub proof fn lemma_non_usable_contributes_nothing(regions: Seq<Region>, i: int)
    requires
        0 <= i < regions.len(),
        !regions[i].usable,
    ensures
        usable_frames_of(regions) == usable_frames_of(regions.remove(i)),
    decreases regions.len(),
{
    let pre = regions.drop_last();
    let last = regions.last();
    if i == regions.len() - 1 {
        assert(last.frames().len() == 0);
        assert(usable_frames_of(pre) + last.frames() =~= usable_frames_of(pre));
        assert(regions.remove(i) =~= pre);
    } else {
        let shorter = regions.remove(i);
        assert(shorter.len() == regions.len() - 1);
        assert(shorter.last() == last);
        assert(shorter.drop_last() =~= pre.remove(i));
        assert(pre[i] == regions[i]);
        lemma_non_usable_contributes_nothing(pre, i);
        assert(usable_frames_of(shorter) == usable_frames_of(pre.remove(i)) + last.frames());
    }
}

/// In an ordered region list, each enumerated frame ends at or before the
/// next one begins: frames never overlap and come out in increasing address
/// order.
pub proof fn lemma_frames_increasing(regions: Seq<Region>)
    requires
        regions_ordered(regions),
    ensures
        forall|i: int, j: int|
            0 <= i < j < usable_frames_of(regions).len() ==> (#[trigger] usable_frames_of(
                regions,
            )[i]).start + 4096 <= (#[trigger] usable_frames_of(regions)[j]).start,
        regions.len() > 0 ==> forall|i: int|
            0 <= i < usable_frames_of(regions).len() ==> (#[trigger] usable_frames_of(
                regions,
            )[i]).start + 4096 <= regions.last().end,
    decreases regions.len(),
{
    if regions.len() > 0 {
        let pre = regions.drop_last();
        let last = regions.last();
        assert(regions_ordered(pre)) by {
            assert(forall|i: int| 0 <= i < pre.len() ==> #[trigger] pre[i].wf());
            assert(forall|i: int, j: int|
                0 <= i < j < pre.len() ==> #[trigger] pre[i].end <= #[trigger] pre[j].start);
        }
        lemma_frames_increasing(pre);
        lemma_region_frames_in_span(last);
        let a = usable_frames_of(pre);
        let b = last.frames();
        let n = a.len() as int;
        assert(usable_frames_of(regions) == a + b);
        assert forall|i: int, j: int|
            0 <= i < j < usable_frames_of(regions).len() implies (#[trigger] usable_frames_of(
            regions,
        )[i]).start + 4096 <= (#[trigger] usable_frames_of(regions)[j]).start by {
            if j < n {
                assert(usable_frames_of(regions)[i] == a[i]);
                assert(usable_frames_of(regions)[j] == a[j]);
            } else if i >= n {
                assert(usable_frames_of(regions)[i] == b[i - n]);
                assert(usable_frames_of(regions)[j] == b[j - n]);
            } else {
                assert(usable_frames_of(regions)[i] == a[i]);
                assert(usable_frames_of(regions)[j] == b[j - n]);
                assert(pre.len() > 0);
                assert(a[i].start + 4096 <= pre.last().end);
                assert(pre.last() == regions[regions.len() - 2]);
                assert(pre.last().end <= last.start);
                assert(b[j - n].start == last.start + (j - n) * 4096);
            }
        }
        assert forall|i: int|
            0 <= i < usable_frames_of(regions).len() implies (#[trigger] usable_frames_of(
            regions,
        )[i]).start + 4096 <= regions.last().end by {
            if i < n {
                assert(usable_frames_of(regions)[i] == a[i]);
                if pre.len() > 0 {
                    assert(a[i].start + 4096 <= pre.last().end);
                    assert(pre.last().end <= last.start);
                    assert(regions[regions.len() - 1].wf());
                    assert(last.start <= last.end);
                }
            } else {
                assert(usable_frames_of(regions)[i] == b[i - n]);
            }
        }
    }
}

/// Frames enumerated from an ordered region list are pairwise distinct: no
/// address is ever yielded twice.
pub proof fn lemma_frames_pairwise_distinct(regions: Seq<Region>)
    requires
        regions_ordered(regions),
    ensures
        forall|i: int, j: int|
            0 <= i < j < usable_frames_of(regions).len() ==> #[trigger] usable_frames_of(
                regions,
            )[i] != #[trigger] usable_frames_of(regions)[j],
{
    lemma_frames_increasing(regions);
}

/// Every frame enumerated from well-formed regions starts on a page boundary.
pub proof fn lemma_frames_aligned(regions: Seq<Region>)
    requires
        forall|i: int| 0 <= i < regions.len() ==> (#[trigger] regions[i]).wf(),
    ensures
        forall|i: int|
            0 <= i < usable_frames_of(regions).len() ==> (#[trigger] usable_frames_of(
                regions,
            )[i]).wf(),
    decreases regions.len(),
{
    if regions.len() > 0 {
        let pre = regions.drop_last();
        let last = regions.last();
        lemma_frames_aligned(pre);
        let a = usable_frames_of(pre);
        let b = last.frames();
        assert(usable_frames_of(regions) == a + b);
        assert forall|i: int|
            0 <= i < usable_frames_of(regions).len() implies (#[trigger] usable_frames_of(
            regions,
        )[i]).wf() by {
            if i < a.len() {
                assert(usable_frames_of(regions)[i] == a[i]);
            } else {
                let k = i - a.len();
                assert(usable_frames_of(regions)[i] == b[k]);
                assert(last.wf());
                lemma_aligned_plus_page_multiple(last.start, k);
            }
        }
    }
}

/// Adding whole pages to a page-aligned address keeps it page-aligned.
proof fn lemma_aligned_plus_page_multiple(start: u64, k: int)
    requires
        page_aligned(start),
        k >= 0,
    ensures
        (start + k * 4096) % 4096 == 0,
{
    let q = (start / 4096) as int;
    vstd::arithmetic::div_mod::lemma_fundamental_div_mod(start as int, 4096);
    assert(start == q * 4096);
    assert(start + k * 4096 == (q + k) * 4096) by (nonlinear_arith)
        requires
            start == q * 4096,
    ;
    vstd::arithmetic::div_mod::lemma_fundamental_div_mod_converse((q + k) * 4096, 4096, q + k, 0);
}

} // verus!
