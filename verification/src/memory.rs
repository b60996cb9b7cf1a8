//! Physical and virtual memory management.
use crate::memory::address::{phys_to_virt, translated, AddressError};
use crate::memory::frame_allocator::{
    memory_map_defect, valid_memory_map, AllocatorView, FrameAllocator, MemoryMapError,
    MemoryRegion,
};
use crate::memory::page_table::{
    flags_or_default, frame_base, is_canonical, map_outcome, page_number, pages_touched,
    unmap_outcome, valid_frame, valid_range, valid_region, MapError, Mapping, MemoryView,
    PageFlags, PageTableManager, PageTableView,
};
use vstd::prelude::*;

pub mod address;
pub mod frame_allocator;
pub mod page_table;

verus! {

/// Size in bytes of one physical frame and of one virtual page.
pub const FRAME_SIZE: u64 = 4096;

/// Why the memory subsystem could not be set up.
#[derive(Clone, Copy, Debug, PartialEq, Eq, Structural)]
pub enum InitError {
    /// The address of the root table is not aligned to 4 KiB.
    RootNotAligned,
    /// The physical memory map was turned down.
    MemoryMap(MemoryMapError),
}

/// The memory subsystem: the page tables, the frame allocator that feeds
/// them, and the offset at which all physical memory is visible.
pub struct Memory {
    physical_memory_offset: u64,
    tables: PageTableManager,
    frames: FrameAllocator,
}

impl View for Memory {
    type V = MemoryView;

    closed spec fn view(&self) -> MemoryView {
        MemoryView { tables: self.tables@, frames: self.frames@ }
    }
}

impl Memory {
    /// The invariant of the subsystem.
    pub closed spec fn wf(&self) -> bool {
        self.tables.wf() && self.frames.wf()
    }

    /// The offset at which physical memory is visible.
    pub closed spec fn offset(&self) -> u64 {
        self.physical_memory_offset
    }

    /// In every well-formed state the allocator's model is well-formed, so
    /// the laws of memory apply.
    pub proof fn lemma_wf(&self)
        requires
            self.wf(),
        ensures
            self@.frames.wf(),
    {
    }

    /// Sets the subsystem up from what the bootloader hands over: the offset
    /// at which physical memory is visible, the physical memory map, and the
    /// frame in which the root table lives. Nothing is mapped yet and no
    /// frame is handed out.
    pub fn init(physical_memory_offset: u64, memory_regions: Vec<MemoryRegion>, root_frame: u64) -> (r:
        Result<Memory, InitError>)
        ensures
            r is Ok <==> valid_frame(root_frame) && valid_memory_map(memory_regions@),
            r matches Ok(m) ==> m.wf() && m@.frames.wf() && m.offset() == physical_memory_offset
                && m@ == (MemoryView {
                tables: PageTableView { mappings: Map::empty(), tables: Map::empty() },
                frames: AllocatorView { map: memory_regions@, cursor: 0, released: Seq::empty() },
            }),
            r matches Err(e) ==> (e == InitError::RootNotAligned <==> !valid_frame(root_frame)),
            r matches Err(InitError::MemoryMap(e)) ==> exists|at: int|
                0 <= at < memory_regions.len() && memory_map_defect(memory_regions@, at) == Some(e)
                    && forall|k: int| 0 <= k < at ==> memory_map_defect(memory_regions@, k) is None,
    {
        let tables = match PageTableManager::new(root_frame) {
            Ok(t) => t,
            Err(_) => {
                return Err(InitError::RootNotAligned);
            },
        };
        let frames = match FrameAllocator::new(memory_regions) {
            Ok(f) => f,
            Err(e) => {
                return Err(InitError::MemoryMap(e));
            },
        };
        Ok(Memory { physical_memory_offset, tables, frames })
    }

    /// The offset at which physical memory is visible.
    pub fn physical_memory_offset(&self) -> (offset: u64)
        ensures
            offset == self.offset(),
    {
        self.physical_memory_offset
    }

    /// The virtual address at which the physical address `physical` is
    /// visible.
    pub fn phys_to_virt(&self, physical: u64) -> (r: Result<u64, AddressError>)
        ensures
            r == translated(self.offset(), physical),
    {
        phys_to_virt(self.physical_memory_offset, physical)
    }

    /// Hands out one unused physical frame.
    pub fn allocate_frame(&mut self) -> (r: Option<u64>)
        requires
            old(self).wf(),
        ensures
            final(self).wf(),
            final(self)@.frames.wf(),
            final(self).offset() == old(self).offset(),
            final(self)@.tables == old(self)@.tables,
            final(self)@.frames == old(self)@.frames.after_allocate(),
            r == (match old(self)@.frames.next_frame() {
                Some(f) => Some(f as u64),
                None => None::<u64>,
            }),
    {
        match self.frames.allocate_frame() {
            Ok(frame) => Some(frame),
            Err(_) => None,
        }
    }

    /// Maps the page that holds `physical_address` to the frame at the same
    /// address; without flags, present and writable. A refusal changes
    /// nothing.
    pub fn identity_map(&mut self, physical_address: u64, flags: Option<PageFlags>) -> (r: Result<
        (),
        MapError,
    >)
        requires
            old(self).wf(),
        ensures
            final(self).wf(),
            final(self)@.frames.wf(),
            final(self).offset() == old(self).offset(),
            r == old(self)@.identity_outcome(physical_address, flags_or_default(flags)),
            final(self)@ == old(self)@.after_identity(physical_address, flags_or_default(flags)),
    {
        self.tables.identity_map(physical_address, flags, &mut self.frames)
    }

    /// Maps every page that the `length` bytes from `virtual_start` on touch
    /// to a fresh frame of its own; without flags, present and writable.
    pub fn range_map(&mut self, virtual_start: u64, length: u64, flags: Option<PageFlags>) -> (r:
        Result<(), MapError>)
        requires
            old(self).wf(),
        ensures
            final(self).wf(),
            final(self)@.frames.wf(),
            final(self).offset() == old(self).offset(),
            !valid_range(virtual_start, length) ==> r == Err::<(), MapError>(MapError::InvalidRange)
                && final(self)@ == old(self)@,
            valid_range(virtual_start, length) ==> r == old(self)@.range_outcome(
                frame_base(virtual_start),
                pages_touched(virtual_start, length),
                flags_or_default(flags),
            ),
            valid_range(virtual_start, length) ==> final(self)@ == old(self)@.after_range(
                frame_base(virtual_start),
                pages_touched(virtual_start, length),
                flags_or_default(flags),
            ),
    {
        self.tables.range_map(virtual_start, length, flags, &mut self.frames)
    }

    /// Maps every page that the `length` bytes from `virtual_start` on touch
    /// to the frame that holds the matching bytes from `physical_start` on;
    /// without flags, present and writable.
    pub fn map_region(
        &mut self,
        virtual_start: u64,
        physical_start: u64,
        length: u64,
        flags: Option<PageFlags>,
    ) -> (r: Result<(), MapError>)
        requires
            old(self).wf(),
        ensures
            final(self).wf(),
            final(self)@.frames.wf(),
            final(self).offset() == old(self).offset(),
            !valid_region(virtual_start, physical_start, length) ==> r == Err::<(), MapError>(
                MapError::InvalidRange,
            ) && final(self)@ == old(self)@,
            valid_region(virtual_start, physical_start, length) ==> r == old(self)@.region_outcome(
                frame_base(virtual_start),
                frame_base(physical_start),
                pages_touched(virtual_start, length),
                flags_or_default(flags),
            ),
            valid_region(virtual_start, physical_start, length) ==> final(self)@ == old(
                self,
            )@.after_region(
                frame_base(virtual_start),
                frame_base(physical_start),
                pages_touched(virtual_start, length),
                flags_or_default(flags),
            ),
    {
        self.tables.map_region(virtual_start, physical_start, length, flags, &mut self.frames)
    }

    /// Unmaps every page that the `length` bytes from `virtual_start` on
    /// touch; frames that came from the allocator go back to it. The caller
    /// flushes the pages' entries of the translation cache.
    pub fn unmap_region(&mut self, virtual_start: u64, length: u64) -> (r: Result<(), MapError>)
        requires
            old(self).wf(),
        ensures
            final(self).wf(),
            final(self)@.frames.wf(),
            final(self).offset() == old(self).offset(),
            r == (if valid_range(virtual_start, length) {
                Ok::<(), MapError>(())
            } else {
                Err::<(), MapError>(MapError::InvalidRange)
            }),
            r is Err ==> final(self)@ == old(self)@,
            r is Ok ==> final(self)@ == old(self)@.after_unmapped_run(
                frame_base(virtual_start),
                pages_touched(virtual_start, length),
            ),
    {
        self.tables.unmap_region(virtual_start, length, &mut self.frames)
    }

    /// Removes the mapping of the page that holds `address` and returns it;
    /// the frame goes back to the allocator if it came from there. The
    /// caller flushes the page's entry of the translation cache.
    pub fn unmap(&mut self, address: u64) -> (r: Result<Mapping, MapError>)
        requires
            old(self).wf(),
        ensures
            final(self).wf(),
            final(self)@.frames.wf(),
            final(self).offset() == old(self).offset(),
            r == unmap_outcome(old(self)@.tables, address),
            r is Err ==> final(self)@ == old(self)@,
            r matches Ok(m) ==> final(self)@.tables == old(self)@.tables.after_unmap(
                page_number(address),
            ) && final(self)@.frames == (if old(self)@.frames.is_issued(m.frame as int) {
                old(self)@.frames.after_release(m.frame as int)
            } else {
                old(self)@.frames
            }),
    {
        self.tables.unmap(address, &mut self.frames)
    }

    /// Where the page that holds `address` leads, if the address is
    /// canonical and the page is mapped.
    pub fn translate(&self, address: u64) -> (r: Option<Mapping>)
        requires
            self.wf(),
        ensures
            r == (if is_canonical(address) {
                self@.tables.mapping_of(page_number(address))
            } else {
                None
            }),
    {
        self.tables.translate(address)
    }
}

} // verus!
