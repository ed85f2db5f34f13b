use slab_allocator::utils::align_to;

#[test]
fn align_to_rounds_up() {
    assert_eq!(align_to(13, 8), 16);
    assert_eq!(align_to(1, 8), 8);
    assert_eq!(align_to(1023, 1024), 1024);
}

#[test]
fn align_to_keeps_aligned_values() {
    assert_eq!(align_to(16, 8), 16);
    assert_eq!(align_to(0, 8), 0);
    assert_eq!(align_to(4096, 1024), 4096);
    assert_eq!(align_to(5, 1), 5);
}
