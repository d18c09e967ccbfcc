use nafuraito::allocator::{EarlyHeap, KernelAllocator, EARLY_HEAP_SIZE};
use nafuraito::heap::Heap;

const BASE: u64 = 0x10_0000;

fn ready_heap() -> Heap {
    let mut h = Heap::new(BASE);
    assert!(h.heap_init().is_ok());
    h
}

#[test]
fn heap_refuses_before_init() {
    let mut h = Heap::new(BASE);
    assert!(!h.heap_is_initialized());
    assert_eq!(h.heap_is_initialized_c(), 0);
    assert_eq!(h.heap_alloc(16, 8), 0);
    h.heap_dealloc(BASE);
    assert_eq!(h.heap_init_c(), 0);
    assert!(h.heap_is_initialized());
    assert_eq!(h.heap_is_initialized_c(), 1);
}

#[test]
fn heap_small_objects_share_a_slab_page() {
    let mut h = ready_heap();
    assert_eq!(h.heap_alloc(16, 8), BASE);
    assert_eq!(h.heap_alloc(16, 8), BASE + 16);
    // 100 bytes go to the 128-byte class on a fresh page.
    assert_eq!(h.heap_alloc(100, 8), BASE + 4096);
    assert_eq!(h.heap_alloc(100, 8), BASE + 4096 + 128);
}

#[test]
fn heap_free_then_alloc_gives_object_back() {
    let mut h = ready_heap();
    assert_eq!(h.heap_alloc(16, 8), BASE);
    assert_eq!(h.heap_alloc(16, 8), BASE + 16);
    assert_eq!(h.heap_alloc(16, 8), BASE + 32);
    h.heap_dealloc(BASE + 16);
    assert_eq!(h.heap_alloc(16, 8), BASE + 16);
    assert_eq!(h.heap_alloc(16, 8), BASE + 48);
}

#[test]
fn heap_large_alloc_then_free_reuses_run() {
    let mut h = ready_heap();
    assert_eq!(h.heap_alloc(16, 8), BASE);
    assert_eq!(h.heap_alloc(100, 8), BASE + 4096);
    // 5000 + 8 + 8 bytes take two pages, from page 2; the address follows
    // the 8-byte header.
    let big = h.heap_alloc(5000, 8);
    assert_eq!(big, BASE + 8192 + 8);
    h.heap_dealloc(big);
    assert_eq!(h.heap_alloc(5000, 8), BASE + 8192 + 8);
    // A 4096-aligned request of 5000 bytes takes three pages (4 to 6).
    let aligned = h.heap_alloc(5000, 4096);
    assert_eq!(aligned, BASE + 5 * 4096);
    h.heap_dealloc(aligned);
    assert_eq!(h.heap_alloc(5000, 4096), BASE + 5 * 4096);
}

#[test]
fn heap_empty_slab_releases_its_page() {
    let mut h = ready_heap();
    assert_eq!(h.heap_alloc(16, 8), BASE);
    let p = h.heap_alloc(2048, 8);
    assert_eq!(p, BASE + 4096);
    h.heap_dealloc(p);
    // Page 1 is free again: a one-page large allocation lands there.
    assert_eq!(h.heap_alloc(4000, 8), BASE + 4096 + 8);
}

#[test]
fn heap_ignores_foreign_pointers() {
    let mut h = ready_heap();
    assert_eq!(h.heap_alloc(16, 8), BASE);
    h.heap_dealloc(0);
    h.heap_dealloc(BASE - 16);
    h.heap_dealloc(BASE + 0x40_0000);
    // A free page and a misaligned slab pointer are ignored too.
    h.heap_dealloc(BASE + 3 * 4096);
    h.heap_dealloc(BASE + 3);
    assert_eq!(h.heap_alloc(16, 8), BASE + 16);
}

#[test]
fn heap_zero_size_and_bad_layouts() {
    let mut h = ready_heap();
    assert_eq!(h.heap_alloc(0, 8), 0);
    assert_eq!(h.heap_alloc_c(16, 3), 0);
    assert_eq!(h.heap_alloc_c(usize::MAX, 16), 0);
    // Alignment 0 is read as 1.
    assert_eq!(h.heap_alloc_c(16, 0), BASE);
    h.heap_dealloc_c(BASE);
}

#[test]
fn heap_exhaustion_answers_zero() {
    let mut h = ready_heap();
    // 1000 pages fit, then a run of 100 does not.
    let a = h.heap_alloc(1000 * 4096 - 16, 8);
    assert_eq!(a, BASE + 8);
    assert_eq!(h.heap_alloc(100 * 4096 - 16, 8), 0);
    h.heap_dealloc(a);
    assert_eq!(h.heap_alloc(100 * 4096 - 16, 8), BASE + 8);
}

#[test]
fn early_heap_bumps_with_sixteen_byte_alignment() {
    let mut e = EarlyHeap::new();
    assert_eq!(e.alloc_early(10, 8), Some(0));
    assert_eq!(e.offset, 10);
    assert_eq!(e.alloc_early(10, 8), Some(16));
    assert_eq!(e.offset, 26);
    assert_eq!(e.alloc_early(8, 64), Some(64));
    assert_eq!(e.alloc_early(EARLY_HEAP_SIZE, 16), None);
    assert_eq!(e.offset, 72);
}

#[test]
fn kernel_allocator_uses_bump_area_until_heap_is_ready() {
    let early_base: u64 = 0x90_0000;
    let mut a = KernelAllocator::new(Heap::new(BASE), early_base);
    assert_eq!(a.kmalloc(100), early_base);
    assert_eq!(a.kmalloc(100), early_base + 112);
    a.kfree(early_base);
    assert!(a.heap.heap_init().is_ok());
    assert_eq!(a.kmalloc(100), BASE);
    assert_eq!(a.allocate(16, 8), BASE + 4096);
    a.dealloc(BASE + 4096);
    assert_eq!(a.allocate(16, 8), BASE + 4096);
    // What the heap cannot serve comes from the bump area.
    assert_eq!(a.allocate(1020 * 4096 - 16, 8), BASE + 2 * 4096 + 8);
    assert_eq!(a.allocate(200_000, 8), early_base + 224);
    assert_eq!(a.kmalloc(usize::MAX), 0);
}
