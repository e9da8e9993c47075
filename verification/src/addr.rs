//! Physical frames and virtual pages: page-sized, page-aligned address units.

use vstd::prelude::*;

verus! {

/// Size in bytes of one page of virtual address space, and of one frame of
/// physical memory.
pub const PAGE_SIZE: u64 = 4096;

/// An address is aligned when it is a whole number of pages from zero.
pub open spec fn page_aligned(addr: u64) -> bool {
    addr % 4096 == 0
}

/// A frame of physical memory, identified by its starting physical address.
/// Equality of frames is equality of addresses.
#[derive(Clone, Copy, Debug, PartialEq, Eq, Structural)]
pub struct Frame {
    pub start: u64,
}

/// A page of virtual address space, identified by its starting virtual
/// address. A page is a distinct namespace from a frame: it gains meaning
/// only once mapped to one.
#[derive(Clone, Copy, Debug, PartialEq, Eq, Structural)]
pub struct Page {
    pub start: u64,
}

impl Frame {
    /// A frame's address lies on a page boundary.
    pub open spec fn wf(self) -> bool {
        page_aligned(self.start)
    }

    /// The frame whose span contains `addr`: the address rounded down to the
    /// page boundary below it.
    pub fn containing_address(addr: u64) -> (frame: Frame)
        ensures
            frame.start == addr - (addr % 4096),
            frame.wf(),
    {
        let frame = Frame { start: addr - addr % 4096 };
        proof {
            lemma_align_down_aligned(addr);
        }
        frame
    }
}

impl Page {
    /// A page's address lies on a page boundary.
    pub open spec fn wf(self) -> bool {
        page_aligned(self.start)
    }

    /// The page whose span contains `addr`: the address rounded down to the
    /// page boundary below it.
    pub fn containing_address(addr: u64) -> (page: Page)
        ensures
            page.start == addr - (addr % 4096),
            page.wf(),
    {
        let page = Page { start: addr - addr % 4096 };
        proof {
            lemma_align_down_aligned(addr);
        }
        page
    }
}

/// Rounding an address down by its remainder modulo the page size lands on a
/// page boundary.
proof fn lemma_align_down_aligned(addr: u64)
    ensures
        page_aligned((addr - (addr % 4096)) as u64),
{
    let r = (addr % 4096) as int;
    let q = (addr / 4096) as int;
    vstd::arithmetic::div_mod::lemma_fundamental_div_mod(addr as int, 4096);
    assert(addr - r == q * 4096);
    vstd::arithmetic::div_mod::lemma_fundamental_div_mod_converse(q * 4096, 4096, q, 0);
}

} // verus!
