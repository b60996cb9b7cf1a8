use kernel::allocator::{init_heap, HEAP_SIZE, HEAP_START};
use kernel::memory::frame_allocator::{FrameAllocator, MemoryRegion, RegionKind};
use kernel::memory::page_table::{MapError, Mapping, PageFlags, PageTableManager};
use kernel::memory::{InitError, Memory};

const DEFAULT: PageFlags =
    PageFlags { present: true, writable: true, user: false, no_execute: false };

fn allocator(start: u64, frames: u64) -> FrameAllocator {
    FrameAllocator::new(vec![MemoryRegion {
        start,
        length: frames * 4096,
        kind: RegionKind::Usable,
    }])
    .unwrap()
}

#[test]
fn identity_map_unmap_and_map_again() {
    let mut frames = allocator(0x10_0000, 16);
    let mut tables = PageTableManager::new(0x1000).unwrap();
    let p: u64 = 0xfee0_0123;
    assert_eq!(tables.identity_map(p, None, &mut frames), Ok(()));
    assert_eq!(
        tables.translate(p),
        Some(Mapping { frame: 0xfee0_0000, flags: DEFAULT })
    );
    assert_eq!(
        tables.unmap(0xfee0_0000, &mut frames),
        Ok(Mapping { frame: 0xfee0_0000, flags: DEFAULT })
    );
    assert_eq!(tables.translate(p), None);
    assert_eq!(tables.unmap(0xfee0_0000, &mut frames), Err(MapError::PageNotMapped));
    assert_eq!(tables.identity_map(p, None, &mut frames), Ok(()));
    assert_eq!(
        tables.translate(0xfee0_0fff),
        Some(Mapping { frame: 0xfee0_0000, flags: DEFAULT })
    );
}

#[test]
fn first_mapping_takes_three_frames_for_tables() {
    let mut frames = allocator(0x10_0000, 16);
    let mut tables = PageTableManager::new(0x1000).unwrap();
    assert_eq!(tables.identity_map(0x20_0000, None, &mut frames), Ok(()));
    // Three tables were made; the fourth frame is the next one handed out.
    assert_eq!(frames.allocate_frame(), Ok(0x10_3000));
    // A page next to the first one needs no table.
    assert_eq!(tables.identity_map(0x20_1000, None, &mut frames), Ok(()));
    assert_eq!(frames.allocate_frame(), Ok(0x10_4000));
    // A page under another entry of the second level needs one table.
    assert_eq!(tables.identity_map(0x40_0000, None, &mut frames), Ok(()));
    assert_eq!(frames.allocate_frame(), Ok(0x10_6000));
    // A page under another entry of the root needs three.
    assert_eq!(tables.identity_map(0x80_0000_0000, None, &mut frames), Ok(()));
    assert_eq!(frames.allocate_frame(), Ok(0x10_a000));
}

#[test]
fn tables_live_in_the_frames_drawn_for_them() {
    let mut frames = allocator(0x10_0000, 16);
    let mut tables = PageTableManager::new(0x1000).unwrap();
    assert_eq!(tables.table_frame(0x20_0000, 3), None);
    assert_eq!(tables.identity_map(0x20_0000, None, &mut frames), Ok(()));
    // The highest table takes the first frame.
    assert_eq!(tables.table_frame(0x20_0000, 3), Some(0x10_0000));
    assert_eq!(tables.table_frame(0x20_0000, 2), Some(0x10_1000));
    assert_eq!(tables.table_frame(0x20_0000, 1), Some(0x10_2000));
    // A page under another entry of the second level shares the upper tables.
    assert_eq!(tables.table_frame(0x40_0000, 2), Some(0x10_1000));
    assert_eq!(tables.table_frame(0x40_0000, 1), None);
    assert_eq!(tables.map_fresh(0x40_0000, DEFAULT, &mut frames), Ok(0x10_3000));
    assert_eq!(tables.table_frame(0x40_0000, 1), Some(0x10_4000));
    // Unmapping leaves the tables where they are.
    assert!(tables.unmap(0x40_0000, &mut frames).is_ok());
    assert_eq!(tables.table_frame(0x40_0000, 1), Some(0x10_4000));
    assert_eq!(tables.table_frame(0x20_0000, 1), Some(0x10_2000));
    assert_eq!(tables.table_frame(0x20_0000, 0), None);
    assert_eq!(tables.table_frame(0x20_0000, 4), None);
    assert_eq!(tables.table_frame(0x0000_8000_0000_0000, 3), None);
    assert_eq!(tables.table_frame(0x80_0000_0000, 3), None);
}

#[test]
fn regions_are_mapped_page_by_page_and_unmapped_again() {
    let mut frames = allocator(0x10_0000, 16);
    let mut tables = PageTableManager::new(0x1000).unwrap();
    // 0x1010 bytes from 0x9000_0ff8 on touch three pages.
    assert_eq!(
        tables.map_region(0x9000_0ff8, 0x7_0ff8, 0x1010, None, &mut frames),
        Ok(())
    );
    assert_eq!(tables.translate(0x9000_0000), Some(Mapping { frame: 0x7_0000, flags: DEFAULT }));
    assert_eq!(tables.translate(0x9000_1000), Some(Mapping { frame: 0x7_1000, flags: DEFAULT }));
    assert_eq!(tables.translate(0x9000_2007), Some(Mapping { frame: 0x7_2000, flags: DEFAULT }));
    assert_eq!(tables.translate(0x9000_3000), None);
    // Mapping the same region again changes nothing and takes no frame.
    assert_eq!(
        tables.map_region(0x9000_0ff8, 0x7_0ff8, 0x1010, None, &mut frames),
        Ok(())
    );
    // A region that would lead one of the pages elsewhere collides.
    assert_eq!(
        tables.map_region(0x9000_2000, 0x8_2000, 0x2000, None, &mut frames),
        Err(MapError::PageAlreadyMapped)
    );
    assert_eq!(tables.translate(0x9000_3000), None);
    assert_eq!(
        tables.map_region(0x9000_0001, 0x7_0002, 8, None, &mut frames),
        Err(MapError::InvalidRange)
    );
    assert_eq!(tables.map_region(0x9000_0000, u64::MAX, 2, None, &mut frames), Err(MapError::InvalidRange));
    assert_eq!(tables.unmap_region(0x9000_0ff8, 0, &mut frames), Err(MapError::InvalidRange));
    // Unmapping passes over pages that are not mapped.
    assert_eq!(tables.unmap_region(0x8fff_f000, 0x5000, &mut frames), Ok(()));
    for page in 0..5u64 {
        assert_eq!(tables.translate(0x8fff_f000 + page * 0x1000), None);
    }
    assert_eq!(frames.allocate_frame(), Ok(0x10_3000));
}

#[test]
fn mapping_again_with_the_same_target_is_accepted() {
    let mut frames = allocator(0x10_0000, 16);
    let mut tables = PageTableManager::new(0x1000).unwrap();
    assert_eq!(tables.map_to(0x5000, 0x9000, DEFAULT, &mut frames), Ok(()));
    assert_eq!(tables.map_to(0x5000, 0x9000, DEFAULT, &mut frames), Ok(()));
    assert_eq!(frames.allocate_frame(), Ok(0x10_3000));
}

#[test]
fn mapping_again_with_another_target_collides() {
    let mut frames = allocator(0x10_0000, 16);
    let mut tables = PageTableManager::new(0x1000).unwrap();
    let read_only = PageFlags { present: true, writable: false, user: false, no_execute: true };
    assert_eq!(tables.map_to(0x5000, 0x9000, DEFAULT, &mut frames), Ok(()));
    assert_eq!(
        tables.map_to(0x5000, 0xa000, DEFAULT, &mut frames),
        Err(MapError::PageAlreadyMapped)
    );
    assert_eq!(
        tables.map_to(0x5000, 0x9000, read_only, &mut frames),
        Err(MapError::PageAlreadyMapped)
    );
    assert_eq!(tables.translate(0x5000), Some(Mapping { frame: 0x9000, flags: DEFAULT }));
}

#[test]
fn flags_are_kept_as_given() {
    let mut frames = allocator(0x10_0000, 16);
    let mut tables = PageTableManager::new(0x1000).unwrap();
    let flags = PageFlags { present: true, writable: false, user: true, no_execute: true };
    assert_eq!(tables.identity_map(0x7000, Some(flags), &mut frames), Ok(()));
    assert_eq!(tables.translate(0x7abc), Some(Mapping { frame: 0x7000, flags }));
}

#[test]
fn out_of_memory_changes_nothing() {
    let mut frames = allocator(0x10_0000, 2);
    let mut tables = PageTableManager::new(0x1000).unwrap();
    assert_eq!(
        tables.identity_map(0x20_0000, None, &mut frames),
        Err(MapError::OutOfMemory)
    );
    assert_eq!(tables.translate(0x20_0000), None);
    assert_eq!(frames.allocate_frame(), Ok(0x10_0000));
    assert_eq!(frames.allocate_frame(), Ok(0x10_1000));
}

#[test]
fn bad_addresses_are_refused() {
    let mut frames = allocator(0x10_0000, 16);
    let mut tables = PageTableManager::new(0x1000).unwrap();
    assert_eq!(
        tables.map_to(0x0000_8000_0000_0000, 0x9000, DEFAULT, &mut frames),
        Err(MapError::NotCanonical)
    );
    assert_eq!(
        tables.map_to(0x5000, 0x9001, DEFAULT, &mut frames),
        Err(MapError::InvalidFrame)
    );
    assert_eq!(
        tables.unmap(0x1234_0000_0000_0000, &mut frames),
        Err(MapError::NotCanonical)
    );
    assert_eq!(tables.translate(0x0001_0000_0000_0000), None);
    assert!(matches!(PageTableManager::new(0x1001), Err(MapError::InvalidFrame)));
    assert_eq!(frames.allocate_frame(), Ok(0x10_0000));
}

#[test]
fn upper_half_addresses_are_mapped() {
    let mut frames = allocator(0x10_0000, 16);
    let mut tables = PageTableManager::new(0x1000).unwrap();
    let high: u64 = 0xffff_8000_0000_3000;
    assert_eq!(tables.map_to(high, 0x9000, DEFAULT, &mut frames), Ok(()));
    assert_eq!(tables.translate(high + 5), Some(Mapping { frame: 0x9000, flags: DEFAULT }));
    // The page of the same number in the lower half is another page.
    assert_eq!(tables.translate(0x3000), None);
}

#[test]
fn unmap_hands_the_frame_back() {
    let mut frames = allocator(0x10_0000, 16);
    let mut tables = PageTableManager::new(0x1000).unwrap();
    assert_eq!(tables.map_fresh(0x4000_0000, DEFAULT, &mut frames), Ok(0x10_0000));
    assert!(frames.is_issued(0x10_0000));
    assert_eq!(
        tables.unmap(0x4000_0000, &mut frames),
        Ok(Mapping { frame: 0x10_0000, flags: DEFAULT })
    );
    assert!(!frames.is_issued(0x10_0000));
    assert_eq!(frames.allocate_frame(), Ok(0x10_0000));
}

#[test]
fn unmap_of_a_device_page_leaves_the_allocator_alone() {
    let mut frames = allocator(0x10_0000, 16);
    let mut tables = PageTableManager::new(0x1000).unwrap();
    assert_eq!(tables.identity_map(0xfec0_0000, None, &mut frames), Ok(()));
    assert_eq!(
        tables.unmap(0xfec0_0000, &mut frames),
        Ok(Mapping { frame: 0xfec0_0000, flags: DEFAULT })
    );
    assert_eq!(frames.allocate_frame(), Ok(0x10_3000));
}

#[test]
fn range_map_gives_every_page_its_own_frame() {
    let mut frames = allocator(0x10_0000, 16);
    let mut tables = PageTableManager::new(0x1000).unwrap();
    // 0x2800 bytes from 0x5000_0800 on touch three pages.
    assert_eq!(tables.range_map(0x5000_0800, 0x2800, None, &mut frames), Ok(()));
    assert_eq!(tables.translate(0x5000_0000), Some(Mapping { frame: 0x10_0000, flags: DEFAULT }));
    assert_eq!(tables.translate(0x5000_1000), Some(Mapping { frame: 0x10_4000, flags: DEFAULT }));
    assert_eq!(tables.translate(0x5000_2fff), Some(Mapping { frame: 0x10_5000, flags: DEFAULT }));
    assert_eq!(tables.translate(0x5000_3000), None);
    assert_eq!(tables.translate(0x4fff_ffff), None);
    assert_eq!(frames.allocate_frame(), Ok(0x10_6000));
}

#[test]
fn range_map_stops_at_the_first_refusal() {
    let mut frames = allocator(0x10_0000, 16);
    let mut tables = PageTableManager::new(0x1000).unwrap();
    assert_eq!(tables.map_to(0x5000_2000, 0x9000, DEFAULT, &mut frames), Ok(()));
    assert_eq!(
        tables.range_map(0x5000_0000, 0x4000, None, &mut frames),
        Err(MapError::PageAlreadyMapped)
    );
    assert!(tables.translate(0x5000_0000).is_some());
    assert!(tables.translate(0x5000_1000).is_some());
    assert_eq!(tables.translate(0x5000_2000), Some(Mapping { frame: 0x9000, flags: DEFAULT }));
    assert_eq!(tables.translate(0x5000_3000), None);
}

#[test]
fn range_map_runs_out_of_memory_midway() {
    let mut frames = allocator(0x10_0000, 5);
    let mut tables = PageTableManager::new(0x1000).unwrap();
    assert_eq!(
        tables.range_map(0x5000_0000, 0x3000, None, &mut frames),
        Err(MapError::OutOfMemory)
    );
    assert!(tables.translate(0x5000_0000).is_some());
    assert!(tables.translate(0x5000_1000).is_some());
    assert_eq!(tables.translate(0x5000_2000), None);
}

#[test]
fn invalid_ranges_are_refused_before_anything_is_mapped() {
    let mut frames = allocator(0x10_0000, 16);
    let mut tables = PageTableManager::new(0x1000).unwrap();
    assert_eq!(tables.range_map(0x5000, 0, None, &mut frames), Err(MapError::InvalidRange));
    assert_eq!(
        tables.range_map(u64::MAX - 5, 10, None, &mut frames),
        Err(MapError::InvalidRange)
    );
    assert_eq!(
        tables.range_map(0x0000_7fff_ffff_f000, 0x2000, None, &mut frames),
        Err(MapError::InvalidRange)
    );
    assert_eq!(
        tables.range_map(0x0000_9000_0000_0000, 0x1000, None, &mut frames),
        Err(MapError::InvalidRange)
    );
    assert_eq!(tables.translate(0x0000_7fff_ffff_f000), None);
    assert_eq!(frames.allocate_frame(), Ok(0x10_0000));
}

#[test]
fn distinct_pages_of_a_range_never_share_a_frame() {
    let mut frames = allocator(0x10_0000, 64);
    let mut tables = PageTableManager::new(0x1000).unwrap();
    assert_eq!(tables.range_map(0x7000_0000, 20 * 4096, None, &mut frames), Ok(()));
    let mut seen: Vec<u64> = Vec::new();
    for page in 0..20u64 {
        let mapping = tables.translate(0x7000_0000 + page * 4096).unwrap();
        assert!(!seen.contains(&mapping.frame));
        assert!(frames.is_issued(mapping.frame));
        assert!(mapping.flags.writable);
        seen.push(mapping.frame);
    }
}

#[test]
fn memory_is_set_up_from_the_hand_off() {
    let regions = vec![
        MemoryRegion { start: 0, length: 0x1000, kind: RegionKind::Reserved },
        MemoryRegion { start: 0x1000, length: 0x10000, kind: RegionKind::Usable },
    ];
    let mut memory = Memory::init(0x1_0000_0000, regions, 0x1000).unwrap();
    assert_eq!(memory.phys_to_virt(0x2345), Ok(0x1_0000_2345));
    assert_eq!(memory.allocate_frame(), Some(0x1000));
    assert_eq!(memory.allocate_frame(), Some(0x2000));
    assert_eq!(memory.allocate_frame(), Some(0x3000));
    assert_eq!(memory.identity_map(0xfee0_0000, None), Ok(()));
    assert_eq!(
        memory.translate(0xfee0_0010),
        Some(Mapping { frame: 0xfee0_0000, flags: DEFAULT })
    );
    assert_eq!(memory.unmap(0xfee0_0000), Ok(Mapping { frame: 0xfee0_0000, flags: DEFAULT }));
    assert_eq!(memory.translate(0xfee0_0010), None);
}

#[test]
fn memory_set_up_refuses_bad_input() {
    let overlapping = vec![
        MemoryRegion { start: 0, length: 0x3000, kind: RegionKind::Usable },
        MemoryRegion { start: 0x1000, length: 0x1000, kind: RegionKind::Usable },
    ];
    assert!(matches!(
        Memory::init(0, overlapping, 0x1000),
        Err(InitError::MemoryMap(_))
    ));
    assert!(matches!(Memory::init(0, Vec::new(), 0x1004), Err(InitError::RootNotAligned)));
}

#[test]
fn heap_is_backed_by_twenty_five_pages() {
    let regions = vec![MemoryRegion { start: 0x10_0000, length: 64 * 4096, kind: RegionKind::Usable }];
    let mut memory = Memory::init(0, regions, 0x1000).unwrap();
    assert_eq!(init_heap(&mut memory), Ok(()));
    assert_eq!(HEAP_SIZE, 100 * 1024);
    for page in 0..25u64 {
        let mapping = memory.translate(HEAP_START + page * 4096).unwrap();
        assert_eq!(mapping.flags, DEFAULT);
    }
    assert_eq!(memory.translate(HEAP_START + 25 * 4096), None);
    assert_eq!(memory.translate(HEAP_START - 1), None);
    // 25 pages and 3 tables were taken.
    assert_eq!(memory.allocate_frame(), Some(0x10_0000 + 28 * 4096));
}

#[test]
fn heap_set_up_fails_without_memory() {
    let regions = vec![MemoryRegion { start: 0x10_0000, length: 10 * 4096, kind: RegionKind::Usable }];
    let mut memory = Memory::init(0, regions, 0x1000).unwrap();
    assert_eq!(init_heap(&mut memory), Err(MapError::OutOfMemory));
}
