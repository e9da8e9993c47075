//! The address-translation context: the record of which virtual pages this
//! subsystem has mapped to which physical frames, and the operation that maps
//! a page to a freshly allocated frame.
//!
//! The live hardware page-table hierarchy itself is raw memory reached
//! through the physical-memory offset; writing it, reading the current root
//! pointer, and flushing stale translations are unverifiable hardware
//! effects that the surrounding kernel performs. Every decision — whether a
//! page may be mapped, which frame backs it, which error comes back — is
//! made here, over this context's record of the mappings it has installed.

use vstd::prelude::*;
use crate::addr::Frame;
use crate::addr::Page;
use crate::frame_allocator::BootInfoFrameAllocator;

verus! {

/// Permission and cache behaviour requested for one mapping.
#[derive(Clone, Copy, Debug, PartialEq, Eq, Structural)]
pub struct MappingFlags {
    pub writable: bool,
    pub user_accessible: bool,
    pub no_execute: bool,
}

/// One installed mapping: a page, the frame that backs it, and the flags it
/// was installed with.
#[derive(Clone, Copy, Debug, PartialEq, Eq, Structural)]
pub struct MappingEntry {
    pub page: Page,
    pub frame: Frame,
    pub flags: MappingFlags,
}

/// Why installing a mapping failed.
#[derive(Clone, Copy, Debug, PartialEq, Eq, Structural)]
pub enum MapFailure {
    /// An intermediate-level table had to be created and no frame was left
    /// for it.
    FrameAllocationFailed,
    /// An intermediate-level entry is a huge-page mapping, so the walk
    /// cannot descend through it.
    ParentEntryHugePage,
    /// The page is already mapped, to the frame carried here.
    PageAlreadyMapped(Frame),
}

/// Error outcome of mapping a page to a fresh frame.
#[derive(Clone, Copy, Debug, PartialEq, Eq, Structural)]
pub enum MapError {
    /// No usable frame remained to back the page.
    FrameAllocationFailed,
    /// Installing the mapping failed, for the carried cause.
    MappingError(MapFailure),
}

impl MapError {
    /// A short, fixed description of the error.
    pub fn description(&self) -> (text: &'static str)
        ensures
            text@ == match self {
                MapError::FrameAllocationFailed => "Frame allocation failed"@,
                MapError::MappingError(_) => "Mapping error"@,
            },
    {
        match self {
            MapError::FrameAllocationFailed => "Frame allocation failed",
            MapError::MappingError(_) => "Mapping error",
        }
    }
}

/// The first entry for `page` in a mapping record, scanning in insertion
/// order. Entries' pages are pairwise distinct in a well-formed context, so
/// this is the only entry for the page.
pub open spec fn spec_lookup(entries: Seq<MappingEntry>, page: Page) -> Option<MappingEntry>
    decreases entries.len(),
{
    if entries.len() == 0 {
        None
    } else if entries.first().page == page {
        Some(entries.first())
    } else {
        spec_lookup(entries.drop_first(), page)
    }
}

/// `spec_lookup` finds nothing exactly when no entry carries the page.
pub proof fn lemma_lookup_none(entries: Seq<MappingEntry>, page: Page)
    ensures
        spec_lookup(entries, page) is None <==> (forall|i: int|
            0 <= i < entries.len() ==> (#[trigger] entries[i]).page != page),
    decreases entries.len(),
{
    if entries.len() > 0 {
        let rest = entries.drop_first();
        lemma_lookup_none(rest, page);
        assert(forall|i: int| 0 <= i < rest.len() ==> #[trigger] rest[i] == entries[i + 1]);
        if entries.first().page == page {
            assert(entries[0].page == page);
        } else if spec_lookup(entries, page) is None {
            assert forall|i: int| 0 <= i < entries.len() implies (#[trigger] entries[i]).page
                != page by {
                if i > 0 {
                    assert(rest[i - 1] == entries[i]);
                }
            }
        } else {
            assert(spec_lookup(rest, page) is Some);
            assert(exists|i: int| 0 <= i < rest.len() && (#[trigger] rest[i]).page == page);
            let k = choose|i: int| 0 <= i < rest.len() && (#[trigger] rest[i]).page == page;
            assert(entries[k + 1].page == page);
        }
    }
}

/// Appending an entry leaves every other page's lookup alone, and makes the
/// new entry's page resolve to it if it was unmapped before.
pub proof fn lemma_lookup_push(entries: Seq<MappingEntry>, entry: MappingEntry, page: Page)
    ensures
        spec_lookup(entries, page) is Some ==> spec_lookup(entries.push(entry), page)
            == spec_lookup(entries, page),
        spec_lookup(entries, page) is None && entry.page == page ==> spec_lookup(
            entries.push(entry),
            page,
        ) == Some(entry),
        spec_lookup(entries, page) is None && entry.page != page ==> spec_lookup(
            entries.push(entry),
            page,
        ) is None,
    decreases entries.len(),
{
    if entries.len() == 0 {
        assert(entries.push(entry).len() == 1);
        assert(entries.push(entry).first() == entry);
        assert(entries.push(entry).drop_first() =~= Seq::<MappingEntry>::empty());
        assert(spec_lookup(Seq::<MappingEntry>::empty(), page) is None);
    } else {
        lemma_lookup_push(entries.drop_first(), entry, page);
        assert(entries.push(entry).first() == entries.first());
        assert(entries.push(entry).drop_first() =~= entries.drop_first().push(entry));
    }
}

/// The record of mappings installed through this context, together with the
/// virtual address at which the whole of physical memory is aliased.
///
/// Construction does not touch hardware state; the caller vouches that the
/// entirety of physical memory really is mapped at the given offset, and
/// that exactly one context is driving the active page-table hierarchy.
pub struct Context {
    physical_memory_offset: u64,
    mappings: Vec<MappingEntry>,
}

impl Context {
    /// The offset at which physical memory is aliased into virtual space.
    pub closed spec fn offset(&self) -> u64 {
        self.physical_memory_offset
    }

    /// The mappings installed so far, in installation order.
    pub closed spec fn mappings_seq(&self) -> Seq<MappingEntry> {
        self.mappings@
    }

    /// The context's invariant: no page is recorded twice.
    pub closed spec fn wf(&self) -> bool {
        forall|i: int, j: int|
            0 <= i < j < self.mappings@.len() ==> (#[trigger] self.mappings@[i]).page != (
            #[trigger] self.mappings@[j]).page
    }

    /// The mapping currently recorded for `page`, if any.
    pub fn lookup(&self, page: Page) -> (result: Option<MappingEntry>)
        ensures
            result == spec_lookup(self.mappings_seq(), page),
    {
        let mut i: usize = 0;
        proof {
            assert(self.mappings@.skip(0) =~= self.mappings@);
        }
        while i < self.mappings.len()
            invariant
                i <= self.mappings@.len(),
                spec_lookup(self.mappings@, page) == spec_lookup(
                    self.mappings@.skip(i as int),
                    page,
                ),
            decreases self.mappings@.len() - i,
        {
            let entry = self.mappings[i];
            proof {
                assert(self.mappings@.skip(i as int).first() == entry);
                assert(self.mappings@.skip(i as int).drop_first() =~= self.mappings@.skip(i + 1));
            }
            if entry.page.start == page.start {
                assert(entry.page == page);
                return Some(entry);
            }
            assert(entry.page != page);
            i = i + 1;
        }
        proof {
            assert(self.mappings@.skip(self.mappings@.len() as int) =~= Seq::<
                MappingEntry,
            >::empty());
        }
        None
    }

    /// Records that `page` has been mapped to `frame` with `flags`. The page
    /// must not be recorded yet; every earlier mapping is kept unchanged.
    pub fn record_mapping(&mut self, page: Page, frame: Frame, flags: MappingFlags)
        requires
            old(self).wf(),
            spec_lookup(old(self).mappings_seq(), page) is None,
        ensures
            final(self).wf(),
            final(self).offset() == old(self).offset(),
            final(self).mappings_seq() == old(self).mappings_seq().push(
                (MappingEntry { page, frame, flags }),
            ),
    {
        proof {
            lemma_lookup_none(self.mappings@, page);
        }
        self.mappings.push(MappingEntry { page, frame, flags });
    }

    /// The virtual address at which the byte at physical address
    /// `frame.start` can be read and written through the physical-memory
    /// alias.
    pub fn phys_to_virt(&self, frame: Frame) -> (virt: u64)
        requires
            self.offset() + frame.start <= u64::MAX,
        ensures
            virt == self.offset() + frame.start,
    {
        self.physical_memory_offset + frame.start
    }
}

/// Produces the address-translation context for the active page-table
/// hierarchy, given the virtual address at which the entirety of physical
/// memory is mapped.
///
/// The caller vouches, uncheckably, that physical memory really is mapped
/// one-to-one at `physical_memory_offset` and that this is done exactly once
/// for the lifetime of the process: a second live context would alias the
/// hardware table tree.
pub fn init(physical_memory_offset: u64) -> (context: Context)
    ensures
        context.wf(),
        context.offset() == physical_memory_offset,
        context.mappings_seq() == Seq::<MappingEntry>::empty(),
{
    Context { physical_memory_offset, mappings: Vec::new() }
}

/// Maps `page` to a freshly allocated frame with the given flags, and
/// returns the frame that now backs it.
///
/// If the page is already mapped, the call fails with the mapping error
/// carrying the frame that holds it, and consumes no frame. If no usable
/// frame remains, it fails with the allocation error. On success the frame
/// is the next one of the allocator's enumeration, and looking the page up
/// afterwards yields exactly that frame. Mapping is not idempotent: a second
/// call for the same page is an error, not a repeat.
pub fn map_page(
    page: Page,
    flags: MappingFlags,
    context: &mut Context,
    frame_allocator: &mut BootInfoFrameAllocator,
) -> (result: Result<Frame, MapError>)
    requires
        old(context).wf(),
        old(frame_allocator).wf(),
        page.wf(),
    ensures
        final(context).wf(),
        final(frame_allocator).wf(),
        final(context).offset() == old(context).offset(),
        final(frame_allocator).regions_seq() == old(frame_allocator).regions_seq(),
        match spec_lookup(old(context).mappings_seq(), page) {
            Some(entry) => {
                &&& result == Err::<Frame, MapError>(
                    MapError::MappingError(MapFailure::PageAlreadyMapped(entry.frame)),
                )
                &&& *final(context) == *old(context)
                &&& *final(frame_allocator) == *old(frame_allocator)
            },
            None => if old(frame_allocator).cursor() < old(frame_allocator).frames().len() {
                &&& result == Ok::<Frame, MapError>(
                    old(frame_allocator).frames()[old(frame_allocator).cursor() as int],
                )
                &&& final(frame_allocator).cursor() == old(frame_allocator).cursor() + 1
                &&& final(frame_allocator).allocated() == old(frame_allocator).allocated() + 1
                &&& final(context).mappings_seq() == old(context).mappings_seq().push(
                    (MappingEntry {
                        page,
                        frame: old(frame_allocator).frames()[old(frame_allocator).cursor() as int],
                        flags,
                    }),
                )
                &&& spec_lookup(final(context).mappings_seq(), page) == Some(
                    (MappingEntry {
                        page,
                        frame: old(frame_allocator).frames()[old(frame_allocator).cursor() as int],
                        flags,
                    }),
                )
            } else {
                &&& result == Err::<Frame, MapError>(MapError::FrameAllocationFailed)
                &&& *final(context) == *old(context)
                &&& *final(frame_allocator) == *old(frame_allocator)
            },
        },
{
    match context.lookup(page) {
        Some(entry) => Err(MapError::MappingError(MapFailure::PageAlreadyMapped(entry.frame))),
        None => {
            match frame_allocator.allocate_frame() {
                None => Err(MapError::FrameAllocationFailed),
                Some(frame) => {
                    proof {
                        lemma_lookup_push(
                            context.mappings_seq(),
                            MappingEntry { page, frame, flags },
                            page,
                        );
                    }
                    context.record_mapping(page, frame, flags);
                    Ok(frame)
                },
            }
        },
    }
}

} // verus!
