use kosmos_core::allocator::BootInfoFrameAllocator;
use kosmos_core::allocator::MemoryRegion;
use kosmos_core::heap::HeapArena;
use kosmos_core::heap::HeapInitError;
use kosmos_core::heap::HEAP_PAGES;
use kosmos_core::heap::HEAP_SIZE;
use kosmos_core::heap::HEAP_START;
use kosmos_core::heap::heap_free;
use kosmos_core::heap::heap_page_address;
use kosmos_core::heap::heap_size;
use kosmos_core::heap::heap_stat;
use kosmos_core::heap::heap_used;
use kosmos_core::heap::init_heap;

#[test]
fn allocate_free_allocate_same_size_reuses_the_offset() {
    let mut arena = HeapArena::new(HEAP_SIZE);
    let first = arena.allocate(4096).unwrap();
    let second = arena.allocate(100).unwrap();
    assert_eq!(first, 0);
    assert_eq!(second, 4096);
    assert_eq!(heap_used(&arena), 4196);

    assert_eq!(arena.free(first), Some(4096));
    assert_eq!(heap_used(&arena), 100);

    // the same request lands in the same gap; used bytes do not grow
    assert_eq!(arena.allocate(4096), Some(0));
    assert_eq!(heap_used(&arena), 4196);
    assert!(heap_used(&arena) <= heap_size());
}

#[test]
fn request_exceeding_free_capacity_fails_deterministically() {
    let mut arena = HeapArena::new(1024);
    assert_eq!(arena.allocate(1025), None);
    assert_eq!(arena.allocate(1024), Some(0));
    assert_eq!(arena.allocate(1), None);
    assert_eq!(arena.free(0), Some(1024));
    assert_eq!(arena.allocate(1), Some(0));
}

#[test]
fn first_fit_fills_the_earliest_gap() {
    let mut arena = HeapArena::new(10000);
    let a = arena.allocate(1000).unwrap(); // [0, 1000)
    let b = arena.allocate(1000).unwrap(); // [1000, 2000)
    let c = arena.allocate(1000).unwrap(); // [2000, 3000)
    assert_eq!((a, b, c), (0, 1000, 2000));
    arena.free(b);
    // too big for the gap: placed after the last block
    assert_eq!(arena.allocate(1500), Some(3000));
    // fits the gap exactly
    assert_eq!(arena.allocate(1000), Some(1000));
}

#[test]
fn freeing_an_unknown_offset_reports_none() {
    let mut arena = HeapArena::new(4096);
    assert_eq!(arena.free(0), None);
    arena.allocate(16).unwrap();
    assert_eq!(arena.free(8), None);
    assert_eq!(arena.free(0), Some(16));
}

#[test]
fn init_heap_plans_one_frame_per_page() {
    let regions = vec![MemoryRegion { start: 0x10_0000, end: 0x20_0000, kind: 1 }];
    let mut frames = BootInfoFrameAllocator::init(regions);
    let (planned, arena) = init_heap(&mut frames).unwrap();
    assert_eq!(planned.len(), HEAP_PAGES);
    assert_eq!(planned[0], 0x10_0000);
    assert_eq!(planned[1], 0x10_1000);
    assert_eq!(heap_used(&arena), 0);
    assert_eq!(heap_free(&arena), HEAP_SIZE);
    // the pages the frames back, in order
    assert_eq!(heap_page_address(0), HEAP_START);
    assert_eq!(heap_page_address(1), HEAP_START + 4096);
}

#[test]
fn init_heap_fails_when_frames_run_out() {
    // 16 usable frames only, far fewer than the heap needs
    let regions = vec![MemoryRegion { start: 0x10_0000, end: 0x11_0000, kind: 1 }];
    let mut frames = BootInfoFrameAllocator::init(regions);
    match init_heap(&mut frames) {
        Err(HeapInitError::FrameExhausted) => {}
        Ok(_) => panic!("the bootstrap must fail without enough frames"),
    }
}

#[test]
fn heap_stat_reports_used_and_total_kib() {
    let mut arena = HeapArena::new(HEAP_SIZE);
    assert_eq!(heap_stat(&arena), "Heap: 0 / 1000 KiB");
    arena.allocate(2048).unwrap();
    assert_eq!(heap_stat(&arena), "Heap: 2 / 1000 KiB");
    assert_eq!(heap_used(&arena), 2048);
    assert_eq!(heap_free(&arena), HEAP_SIZE - 2048);
}
