use kosmos_core::allocator::BootInfoFrameAllocator;
use kosmos_core::allocator::MemoryRegion;

fn region(start: u64, end: u64, kind: u64) -> MemoryRegion {
    MemoryRegion { start, end, kind }
}

#[test]
fn yields_usable_frames_then_exhausted() {
    let regions = vec![region(0, 0x1000, 0), region(0x1000, 0x5000, 1)];
    let mut alloc = BootInfoFrameAllocator::init(regions);
    assert_eq!(alloc.allocate_frame(), Some(0x1000));
    assert_eq!(alloc.allocate_frame(), Some(0x2000));
    assert_eq!(alloc.allocate_frame(), Some(0x3000));
    assert_eq!(alloc.allocate_frame(), Some(0x4000));
    assert_eq!(alloc.allocate_frame(), None);
    // exhausted stays exhausted
    assert_eq!(alloc.allocate_frame(), None);
}

#[test]
fn aligns_unaligned_region_start_up() {
    let regions = vec![region(0x1800, 0x3800, 1)];
    let mut alloc = BootInfoFrameAllocator::init(regions);
    // 0x1800 rounds up to 0x2000; 0x3000 + 0x1000 would leave the region
    assert_eq!(alloc.allocate_frame(), Some(0x2000));
    assert_eq!(alloc.allocate_frame(), None);
}

#[test]
fn skips_reserved_regions() {
    let regions = vec![
        region(0, 0x2000, 0),
        region(0x2000, 0x3000, 1),
        region(0x3000, 0x4000, 0),
        region(0x4000, 0x5000, 1),
    ];
    let mut alloc = BootInfoFrameAllocator::init(regions);
    assert_eq!(alloc.allocate_frame(), Some(0x2000));
    assert_eq!(alloc.allocate_frame(), Some(0x4000));
    assert_eq!(alloc.allocate_frame(), None);
}

#[test]
fn empty_and_reserved_lists_yield_nothing() {
    let mut empty = BootInfoFrameAllocator::init(Vec::new());
    assert_eq!(empty.allocate_frame(), None);

    let mut reserved = BootInfoFrameAllocator::init(vec![region(0, 0x100000, 0)]);
    assert_eq!(reserved.allocate_frame(), None);
}

#[test]
fn region_smaller_than_one_frame_is_skipped() {
    let regions = vec![region(0x1000, 0x1800, 1), region(0x2000, 0x3000, 1)];
    let mut alloc = BootInfoFrameAllocator::init(regions);
    assert_eq!(alloc.allocate_frame(), Some(0x2000));
    assert_eq!(alloc.allocate_frame(), None);
}

#[test]
fn frames_come_out_in_increasing_order() {
    let regions = vec![region(0x1000, 0x4000, 1), region(0x8000, 0xa000, 1)];
    let mut alloc = BootInfoFrameAllocator::init(regions);
    let mut previous: Option<u64> = None;
    let mut count = 0;
    while let Some(frame) = alloc.allocate_frame() {
        assert_eq!(frame % 4096, 0);
        if let Some(p) = previous {
            assert!(p < frame);
        }
        previous = Some(frame);
        count += 1;
    }
    assert_eq!(count, 5);
}
