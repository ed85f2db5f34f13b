use slab_allocator::config::BlockSize;

#[test]
fn categorize_exact_boundaries() {
    assert_eq!(BlockSize::categorize(8), Some(BlockSize::Tiny));
    assert_eq!(BlockSize::categorize(9), Some(BlockSize::Small));
    assert_eq!(BlockSize::categorize(1024), Some(BlockSize::Mammoth));
}

#[test]
fn categorize_examples() {
    assert_eq!(BlockSize::categorize(10), Some(BlockSize::Small));
    assert_eq!(BlockSize::categorize(500), Some(BlockSize::Colossal));
    assert_eq!(BlockSize::categorize(1500), None);
}

#[test]
fn categorize_rejects_zero_and_oversize() {
    assert_eq!(BlockSize::categorize(0), None);
    assert_eq!(BlockSize::categorize(1025), None);
    assert_eq!(BlockSize::categorize(2000), None);
}

#[test]
fn categorize_returns_smallest_fitting_class() {
    for size in 1..=1024usize {
        let c = BlockSize::categorize(size).unwrap();
        let w = c.width();
        assert!(size <= w);
        // the next-smaller class would not fit, except below the smallest width
        if w > 8 {
            assert!(size > w / 2);
        }
    }
}

#[test]
fn class_widths_and_indices() {
    let classes = [
        BlockSize::Tiny,
        BlockSize::Small,
        BlockSize::Medium,
        BlockSize::Large,
        BlockSize::Huge,
        BlockSize::Giant,
        BlockSize::Colossal,
        BlockSize::Mammoth,
    ];
    let mut expected_width = 8usize;
    for (i, c) in classes.iter().enumerate() {
        assert_eq!(c.class_index(), i);
        assert_eq!(c.width(), expected_width);
        expected_width *= 2;
    }
    assert_eq!(BlockSize::MAX, 1024);
}
