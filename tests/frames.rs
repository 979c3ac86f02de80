use os_core::config::PAGE_SIZE;
use os_core::frame_allocator::{frame_alloc, frame_dealloc, init_frame_allocator, PhysMemory, PhysPageNum, StackFrameAllocator};
use os_core::heap_allocator::handle_alloc_error;

fn allocator(l: usize, r: usize) -> StackFrameAllocator {
    let mut fa = StackFrameAllocator::new();
    fa.init(PhysPageNum(l), PhysPageNum(r));
    fa
}

#[test]
fn fresh_range_hands_out_each_page_once() {
    let mut fa = allocator(10, 14);
    let mut got = Vec::new();
    for _ in 0..4 {
        got.push(fa.allocate().unwrap().0);
    }
    assert_eq!(got, vec![10, 11, 12, 13]);
    assert!(fa.allocate().is_none());
}

#[test]
fn empty_range_allocates_nothing() {
    let mut fa = allocator(5, 5);
    assert!(fa.allocate().is_none());
}

#[test]
fn freed_frame_is_reused_first() {
    let mut fa = allocator(10, 20);
    let a = fa.allocate().unwrap();
    let b = fa.allocate().unwrap();
    assert_eq!((a.0, b.0), (10, 11));
    fa.deallocate(a);
    assert_eq!(fa.allocate(), Some(PhysPageNum(10)));
    assert_eq!(fa.allocate(), Some(PhysPageNum(12)));
}

#[test]
fn reuse_is_last_in_first_out() {
    let mut fa = allocator(0, 8);
    for _ in 0..3 {
        fa.allocate();
    }
    fa.deallocate(PhysPageNum(0));
    fa.deallocate(PhysPageNum(2));
    assert_eq!(fa.allocate(), Some(PhysPageNum(2)));
    assert_eq!(fa.allocate(), Some(PhysPageNum(0)));
    assert_eq!(fa.allocate(), Some(PhysPageNum(3)));
}

#[test]
fn double_free_is_refused() {
    let mut fa = allocator(10, 20);
    let a = fa.allocate().unwrap();
    assert!(fa.can_deallocate(a));
    fa.deallocate(a);
    assert!(!fa.can_deallocate(a));
}

#[test]
fn free_of_unallocated_frame_is_refused() {
    let mut fa = allocator(10, 20);
    fa.allocate();
    assert!(!fa.can_deallocate(PhysPageNum(11)));
    assert!(!fa.can_deallocate(PhysPageNum(19)));
    assert!(fa.can_deallocate(PhysPageNum(10)));
}

#[test]
fn has_frames_counts_recycled_and_frontier() {
    let mut fa = allocator(0, 3);
    fa.allocate();
    fa.allocate();
    fa.deallocate(PhysPageNum(0));
    assert!(fa.has_frames(2));
    assert!(!fa.has_frames(3));
}

#[test]
fn allocated_frame_is_zero_filled() {
    let mut fa = allocator(100, 102);
    let mut mem = PhysMemory::new(100, 2);
    for b in mem.pages[0].iter_mut() {
        *b = 0xAB;
    }
    mem.pages[1][7] = 3;
    let t = frame_alloc(&mut fa, &mut mem).unwrap();
    assert_eq!(t.ppn, PhysPageNum(100));
    assert_eq!(mem.pages[0].len(), PAGE_SIZE);
    assert!(mem.pages[0].iter().all(|b| *b == 0));
    assert_eq!(mem.pages[1][7], 3);
}

#[test]
fn reused_frame_is_zero_filled_again() {
    let mut fa = allocator(100, 101);
    let mut mem = PhysMemory::new(100, 1);
    let t = frame_alloc(&mut fa, &mut mem).unwrap();
    mem.pages[0][0] = 9;
    mem.pages[0][PAGE_SIZE - 1] = 9;
    frame_dealloc(&mut fa, t);
    let t2 = frame_alloc(&mut fa, &mut mem).unwrap();
    assert_eq!(t2.ppn, PhysPageNum(100));
    assert!(mem.pages[0].iter().all(|b| *b == 0));
    assert!(frame_alloc(&mut fa, &mut mem).is_none());
}

#[test]
fn init_rounds_to_whole_pages() {
    let mut fa = StackFrameAllocator::new();
    init_frame_allocator(&mut fa, 0x8020_1234, 0x8080_0000);
    assert_eq!(fa.allocate(), Some(PhysPageNum(0x80202)));
    let mut fb = StackFrameAllocator::new();
    init_frame_allocator(&mut fb, 0x8020_0000, 0x8020_1fff);
    assert_eq!(fb.allocate(), Some(PhysPageNum(0x80200)));
    assert!(fb.allocate().is_none());
}

#[test]
fn heap_error_names_the_request() {
    let e = handle_alloc_error(64, 8);
    assert_eq!((e.size, e.align), (64, 8));
}
