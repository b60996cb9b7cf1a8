use kernel::memory::frame_allocator::{
    check_memory_map, FrameAllocator, FrameError, MemoryMapError, MemoryRegion, RegionKind,
};

fn region(start: u64, length: u64, kind: RegionKind) -> MemoryRegion {
    MemoryRegion { start, length, kind }
}

#[test]
fn three_frames_from_synthetic_map() {
    let map = vec![
        region(0x0, 0x1000, RegionKind::Reserved),
        region(0x1000, 0x10000, RegionKind::Usable),
    ];
    let mut allocator = FrameAllocator::new(map).unwrap();
    assert_eq!(allocator.allocate_frame(), Ok(0x1000));
    assert_eq!(allocator.allocate_frame(), Ok(0x2000));
    assert_eq!(allocator.allocate_frame(), Ok(0x3000));
}

#[test]
fn allocator_runs_out_after_last_frame() {
    let map = vec![region(0x1000, 0x2000, RegionKind::Usable)];
    let mut allocator = FrameAllocator::new(map).unwrap();
    assert_eq!(allocator.allocate_frame(), Ok(0x1000));
    assert_eq!(allocator.allocate_frame(), Ok(0x2000));
    assert_eq!(allocator.allocate_frame(), Err(FrameError::OutOfMemory));
    assert_eq!(allocator.allocate_frame(), Err(FrameError::OutOfMemory));
}

#[test]
fn reserved_regions_are_skipped() {
    let map = vec![
        region(0x0, 0x1000, RegionKind::Usable),
        region(0x1000, 0x3000, RegionKind::Reserved),
        region(0x4000, 0x1000, RegionKind::Usable),
    ];
    let mut allocator = FrameAllocator::new(map).unwrap();
    assert_eq!(allocator.allocate_frame(), Ok(0x0));
    assert_eq!(allocator.allocate_frame(), Ok(0x4000));
    assert_eq!(allocator.allocate_frame(), Err(FrameError::OutOfMemory));
}

#[test]
fn unaligned_region_yields_only_whole_frames() {
    // 0x1800..0x4800 holds the whole frames 0x2000 and 0x3000 only.
    let map = vec![region(0x1800, 0x3000, RegionKind::Usable)];
    let mut allocator = FrameAllocator::new(map).unwrap();
    assert_eq!(allocator.allocate_frame(), Ok(0x2000));
    assert_eq!(allocator.allocate_frame(), Ok(0x3000));
    assert_eq!(allocator.allocate_frame(), Err(FrameError::OutOfMemory));
}

#[test]
fn region_smaller_than_a_frame_yields_nothing() {
    let map = vec![region(0x1000, 0xfff, RegionKind::Usable)];
    let mut allocator = FrameAllocator::new(map).unwrap();
    assert_eq!(allocator.allocate_frame(), Err(FrameError::OutOfMemory));
}

#[test]
fn empty_map_yields_nothing() {
    let mut allocator = FrameAllocator::new(Vec::new()).unwrap();
    assert_eq!(allocator.allocate_frame(), Err(FrameError::OutOfMemory));
}

#[test]
fn region_at_the_top_of_the_address_space() {
    // The last byte of the address space is one short of a second frame.
    let map = vec![region(u64::MAX - 0x1fff, 0x1fff, RegionKind::Usable)];
    let mut allocator = FrameAllocator::new(map).unwrap();
    assert_eq!(allocator.allocate_frame(), Ok(0xffff_ffff_ffff_e000));
    assert_eq!(allocator.allocate_frame(), Err(FrameError::OutOfMemory));
    // An unaligned start near the top leaves no whole frame.
    let map = vec![region(u64::MAX - 0x17ff, 0x17ff, RegionKind::Usable)];
    let mut allocator = FrameAllocator::new(map).unwrap();
    assert_eq!(allocator.allocate_frame(), Err(FrameError::OutOfMemory));
}

#[test]
fn overflowing_region_is_refused() {
    let map = vec![region(u64::MAX, 2, RegionKind::Reserved)];
    assert_eq!(check_memory_map(&map), Err(MemoryMapError::RegionOverflow));
    assert!(matches!(FrameAllocator::new(map), Err(MemoryMapError::RegionOverflow)));
}

#[test]
fn overlapping_regions_are_refused() {
    let map = vec![
        region(0x0, 0x2000, RegionKind::Usable),
        region(0x1000, 0x2000, RegionKind::Usable),
    ];
    assert_eq!(check_memory_map(&map), Err(MemoryMapError::Unordered));
    assert!(matches!(FrameAllocator::new(map), Err(MemoryMapError::Unordered)));
}

#[test]
fn first_defect_decides_the_error() {
    let map = vec![
        region(0x2000, 0x1000, RegionKind::Usable),
        region(0x0, 0x1000, RegionKind::Usable),
        region(u64::MAX, 2, RegionKind::Usable),
    ];
    assert_eq!(check_memory_map(&map), Err(MemoryMapError::Unordered));
}

#[test]
fn touching_regions_are_accepted() {
    let map = vec![
        region(0x0, 0x1000, RegionKind::Usable),
        region(0x1000, 0x1000, RegionKind::Usable),
    ];
    assert_eq!(check_memory_map(&map), Ok(()));
}

#[test]
fn released_frame_is_handed_out_again_first() {
    let map = vec![region(0x1000, 0x4000, RegionKind::Usable)];
    let mut allocator = FrameAllocator::new(map).unwrap();
    assert_eq!(allocator.allocate_frame(), Ok(0x1000));
    assert_eq!(allocator.allocate_frame(), Ok(0x2000));
    assert!(allocator.is_issued(0x1000));
    assert_eq!(allocator.deallocate_frame(0x1000), Ok(()));
    assert!(!allocator.is_issued(0x1000));
    assert_eq!(allocator.allocate_frame(), Ok(0x1000));
    assert_eq!(allocator.allocate_frame(), Ok(0x3000));
}

#[test]
fn releasing_what_is_not_issued_is_refused() {
    let map = vec![region(0x1000, 0x4000, RegionKind::Usable)];
    let mut allocator = FrameAllocator::new(map).unwrap();
    assert_eq!(allocator.deallocate_frame(0x1000), Err(FrameError::NotIssued));
    assert_eq!(allocator.allocate_frame(), Ok(0x1000));
    assert_eq!(allocator.deallocate_frame(0x1800), Err(FrameError::NotIssued));
    assert_eq!(allocator.deallocate_frame(0x2000), Err(FrameError::NotIssued));
    assert_eq!(allocator.deallocate_frame(0x9000), Err(FrameError::NotIssued));
    assert_eq!(allocator.deallocate_frame(0x1000), Ok(()));
    assert_eq!(allocator.deallocate_frame(0x1000), Err(FrameError::NotIssued));
}

#[test]
fn no_frame_twice_without_release() {
    let map = vec![
        region(0x1000, 0x3000, RegionKind::Usable),
        region(0x8000, 0x2000, RegionKind::Usable),
    ];
    let mut allocator = FrameAllocator::new(map).unwrap();
    let mut seen: Vec<u64> = Vec::new();
    while let Ok(frame) = allocator.allocate_frame() {
        assert!(!seen.contains(&frame));
        assert_eq!(frame % 4096, 0);
        assert!((0x1000..0x4000).contains(&frame) || (0x8000..0xa000).contains(&frame));
        seen.push(frame);
    }
    assert_eq!(seen, vec![0x1000, 0x2000, 0x3000, 0x8000, 0x9000]);
}
