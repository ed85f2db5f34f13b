use slab_allocator::arena::Arena;

#[test]
fn fresh_arena_hands_out_blocks_ascending() {
    let mut a = Arena::new(4096, 1024, 32);
    assert_eq!(a.free_count(), 32);
    assert_eq!(a.allocate(), 4096);
    assert_eq!(a.allocate(), 4096 + 32);
    assert_eq!(a.allocate(), 4096 + 64);
    assert_eq!(a.free_count(), 29);
}

#[test]
fn arena_exhaustion_returns_null() {
    let mut a = Arena::new(8192, 64, 16);
    for i in 0..4 {
        assert_eq!(a.allocate(), 8192 + 16 * i);
    }
    assert_eq!(a.allocate(), 0);
    assert_eq!(a.free_count(), 0);
}

#[test]
fn arena_reuses_most_recently_freed_block() {
    let mut a = Arena::new(4096, 1024, 64);
    let p1 = a.allocate();
    let p2 = a.allocate();
    a.deallocate(p1);
    a.deallocate(p2);
    assert_eq!(a.allocate(), p2);
    assert_eq!(a.allocate(), p1);
}

#[test]
fn arena_tracks_free_and_owned_blocks() {
    let mut a = Arena::new(4096, 256, 32);
    assert!(a.owns_block(4096));
    assert!(a.owns_block(4096 + 224));
    assert!(!a.owns_block(4096 + 256));
    assert!(!a.owns_block(4095));
    assert!(!a.owns_block(4096 + 33));
    assert!(a.is_free(4096));
    let p = a.allocate();
    assert!(!a.is_free(p));
    a.deallocate(p);
    assert!(a.is_free(p));
}
