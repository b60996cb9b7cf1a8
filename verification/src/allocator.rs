//! The kernel heap: where it lives and what a failed allocation means.
use crate::memory::page_table::{
    default_flags, frame_base, law_range_map_gives_each_page_its_own_frame, page_address,
    page_number, pages_touched, valid_pages, valid_range, MapError, MemoryView, PageFlags,
};
use crate::memory::Memory;
use vstd::prelude::*;

verus! {

/// Virtual address of the first byte of the heap.
pub const HEAP_START: u64 = 0x4444_4444_0000;

/// Size of the heap in bytes: 100 KiB.
pub const HEAP_SIZE: usize = 102400;

/// The request that the heap could not serve.
#[derive(Clone, Copy, Debug, PartialEq, Eq, Structural)]
pub struct AllocationFailure {
    /// Number of bytes asked for.
    pub size: usize,
    /// Alignment asked for.
    pub align: usize,
}

/// Called when the heap cannot serve a request of `size` bytes aligned to
/// `align`: names the failure, with which the kernel then halts.
pub fn alloc_error_handler(size: usize, align: usize) -> (failure: AllocationFailure)
    ensures
        failure == (AllocationFailure { size, align }),
{
    AllocationFailure { size, align }
}

/// The heap lies in the lower canonical half and is 25 pages long.
pub proof fn lemma_heap_range()
    ensures
        valid_range(HEAP_START, HEAP_SIZE as u64),
        frame_base(HEAP_START) == HEAP_START,
        pages_touched(HEAP_START, HEAP_SIZE as u64) == 25,
{
}

/// Backs the heap with memory: every page of the `HEAP_SIZE` bytes from
/// `HEAP_START` on is mapped, present and writable, to a fresh frame. After
/// that the range may be handed to the heap allocator.
pub fn init_heap(memory: &mut Memory) -> (r: Result<(), MapError>)
    requires
        old(memory).wf(),
    ensures
        final(memory).wf(),
        final(memory)@.frames.wf(),
        final(memory).offset() == old(memory).offset(),
        r == old(memory)@.range_outcome(
            HEAP_START,
            25,
            PageFlags { present: true, writable: true, user: false, no_execute: false },
        ),
        final(memory)@ == old(memory)@.after_range(
            HEAP_START,
            25,
            PageFlags { present: true, writable: true, user: false, no_execute: false },
        ),
{
    proof {
        lemma_heap_range();
    }
    let flags = PageFlags { present: true, writable: true, user: false, no_execute: false };
    memory.range_map(HEAP_START, HEAP_SIZE as u64, Some(flags))
}

/// Once the heap is mapped, every address of it lies in a page that is
/// mapped, present and writable, to a frame that the allocator issued for
/// it. Only then may the range be handed to the heap allocator, whose
/// bookkeeping lives inside the range.
pub proof fn law_heap_is_backed(memory: MemoryView, offset: int)
    requires
        memory.frames.wf(),
        memory.range_outcome(HEAP_START, 25, default_flags()) is Ok,
        0 <= offset < HEAP_SIZE,
    ensures
        memory.after_range(HEAP_START, 25, default_flags()).tables.mapping_of(
            page_number((HEAP_START + offset) as u64),
        ) is Some,
        memory.after_range(HEAP_START, 25, default_flags()).tables.mapping_of(
            page_number((HEAP_START + offset) as u64),
        ).unwrap().flags == default_flags(),
        memory.after_range(HEAP_START, 25, default_flags()).frames.is_issued(
            memory.after_range(HEAP_START, 25, default_flags()).tables.mapping_of(
                page_number((HEAP_START + offset) as u64),
            ).unwrap().frame as int,
        ),
{
    let page = offset / 4096;
    assert(valid_pages(HEAP_START, 25));
    assert(page_number((HEAP_START + offset) as u64) == page_number(page_address(HEAP_START, page)));
    law_range_map_gives_each_page_its_own_frame(memory, HEAP_START, 25, default_flags(), page, page);
}

} // verus!
