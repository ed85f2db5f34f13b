use slab_allocator::config::BlockSize;
use slab_allocator::memory::SlabMemory;
use slab_allocator::SlabAllocator;

const BASE: usize = 1 << 20;

#[test]
fn test_allocation() {
    let mut a = SlabAllocator::new();
    a.initialize(BASE, 16384);
    let ptr = a.allocate(16, 8);
    assert!(ptr != 0);
}

#[test]
fn small_block_lands_in_second_sub_region() {
    let mut m = SlabMemory::initialize(BASE, 16384);
    let p1 = m.allocate(16, 8);
    assert!(p1 != 0);
    assert!(p1 >= BASE + 2048 && p1 < BASE + 4096);
    assert_eq!(p1 % 16, 0);
}

#[test]
fn small_class_exhausts_after_128_blocks_and_reuses_lifo() {
    let mut m = SlabMemory::initialize(BASE, 16384);
    let mut held = Vec::new();
    for _ in 0..128 {
        let p = m.allocate(16, 8);
        assert!(p != 0);
        held.push(p);
    }
    assert_eq!(m.allocate(16, 8), 0);
    let fiftieth = held[49];
    m.deallocate(fiftieth, 16, 8);
    assert_eq!(m.allocate(16, 8), fiftieth);
}

#[test]
fn sizes_33_and_64_share_the_large_class() {
    let mut m = SlabMemory::initialize(BASE, 16384);
    let p1 = m.allocate(33, 1);
    let p2 = m.allocate(64, 1);
    assert!(p1 != 0 && p2 != 0);
    assert_ne!(p1, p2);
    let large_base = BASE + 3 * 2048;
    assert!(p1 >= large_base && p1 < large_base + 2048);
    assert!(p2 >= large_base && p2 < large_base + 2048);
    assert_eq!(p1 % 64, 0);
    assert_eq!(p2 % 64, 0);
}

#[test]
fn one_block_of_each_class() {
    let mut m = SlabMemory::initialize(BASE, 16384);
    let sizes = [8usize, 16, 32, 64, 128, 256, 512, 1024];
    let mut ptrs = Vec::new();
    for (i, &size) in sizes.iter().enumerate() {
        let p = m.allocate(size, 1);
        assert!(p != 0);
        let sub_base = BASE + i * 2048;
        assert!(p >= sub_base && p < sub_base + 2048);
        assert_eq!(p % size, 0);
        ptrs.push(p);
    }
    for i in 0..ptrs.len() {
        for j in 0..i {
            assert_ne!(ptrs[i], ptrs[j]);
        }
    }
}

#[test]
fn oversized_request_returns_null() {
    let mut m = SlabMemory::initialize(BASE, 16384);
    assert_eq!(m.allocate(2000, 1), 0);
}

#[test]
fn zero_size_returns_null() {
    let mut m = SlabMemory::initialize(BASE, 16384);
    assert_eq!(m.allocate(0, 1), 0);
}

#[test]
fn size_1025_returns_null() {
    let mut m = SlabMemory::initialize(BASE, 16384);
    assert_eq!(m.allocate(1025, 1), 0);
}

#[test]
fn over_aligned_request_returns_null() {
    let mut m = SlabMemory::initialize(BASE, 16384);
    assert_eq!(m.allocate(16, 32), 0);
    assert!(m.allocate(16, 16) != 0);
}

#[test]
fn free_then_allocate_returns_same_block() {
    let mut m = SlabMemory::initialize(BASE, 16384);
    let p = m.allocate(16, 8);
    assert!(p != 0);
    m.deallocate(p, 16, 8);
    let q = m.allocate(16, 8);
    assert_eq!(q, p);
}

#[test]
fn each_class_yields_exactly_its_block_count() {
    let mut m = SlabMemory::initialize(BASE, 8192);
    let sizes = [8usize, 16, 32, 64, 128, 256, 512, 1024];
    for &size in sizes.iter() {
        let expected = 1024 / size;
        let mut last = 0;
        for _ in 0..expected {
            let p = m.allocate(size, 1);
            assert!(p != 0);
            last = p;
        }
        assert_eq!(m.allocate(size, 1), 0);
        m.deallocate(last, size, 1);
        assert_eq!(m.allocate(size, 1), last);
        assert_eq!(m.allocate(size, 1), 0);
    }
}

#[test]
fn length_rounds_down_to_the_8192_partition() {
    let mut m = SlabMemory::initialize(BASE, 8197);
    assert_eq!(m.free_blocks(BlockSize::Tiny), 128);
    assert_eq!(m.free_blocks(BlockSize::Mammoth), 1);
    let p = m.allocate(1024, 1);
    assert_eq!(p, BASE + 7 * 1024);
}

#[test]
fn balanced_pairs_restore_free_counts() {
    let mut m = SlabMemory::initialize(BASE, 16384);
    assert_eq!(m.free_blocks(BlockSize::Medium), 64);
    let p1 = m.allocate(32, 1);
    let p2 = m.allocate(20, 1);
    let p3 = m.allocate(17, 1);
    assert_eq!(m.free_blocks(BlockSize::Medium), 61);
    m.deallocate(p2, 20, 1);
    m.deallocate(p1, 32, 1);
    m.deallocate(p3, 17, 1);
    assert_eq!(m.free_blocks(BlockSize::Medium), 64);
    // the same three blocks come back out, in LIFO order of the frees
    assert_eq!(m.allocate(32, 1), p3);
    assert_eq!(m.allocate(32, 1), p1);
    assert_eq!(m.allocate(32, 1), p2);
}

#[test]
fn may_deallocate_screens_misuse() {
    let mut m = SlabMemory::initialize(BASE, 16384);
    let p = m.allocate(16, 8);
    assert!(m.may_deallocate(p, 16, 8));
    // foreign pointer: outside the small sub-region
    assert!(!m.may_deallocate(BASE, 16, 8));
    // misaligned pointer
    assert!(!m.may_deallocate(p + 1, 16, 8));
    // wrong classification
    assert!(!m.may_deallocate(p, 0, 8));
    m.deallocate(p, 16, 8);
    // double free
    assert!(!m.may_deallocate(p, 16, 8));
}

#[test]
fn allocator_surface_rejects_and_reuses_like_the_dispatcher() {
    let mut a = SlabAllocator::new();
    a.initialize(BASE, 16384);
    assert_eq!(a.allocate(0, 1), 0);
    assert_eq!(a.allocate(1025, 1), 0);
    let p = a.allocate(100, 8);
    assert!(p != 0);
    assert!(p >= BASE + 4 * 2048 && p < BASE + 5 * 2048);
    assert_eq!(p % 128, 0);
    assert!(a.may_deallocate(p, 100, 8));
    a.deallocate(p, 100, 8);
    assert!(!a.may_deallocate(p, 100, 8));
    assert_eq!(a.allocate(100, 8), p);
}
