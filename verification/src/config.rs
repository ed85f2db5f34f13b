//! The eight size classes and the classifier mapping a requested byte count
//! to the smallest class wide enough to hold it.

use vstd::prelude::*;

verus! {

/// The block widths supported by the allocator.  Each variant stands both for
/// a size category and for the width in bytes of the blocks of that category.
#[derive(Clone, Copy, Debug, PartialEq, Eq, Structural)]
pub enum BlockSize {
    /// 8-byte blocks.
    Tiny,
    /// 16-byte blocks.
    Small,
    /// 32-byte blocks.
    Medium,
    /// 64-byte blocks.
    Large,
    /// 128-byte blocks.
    Huge,
    /// 256-byte blocks.
    Giant,
    /// 512-byte blocks.
    Colossal,
    /// 1024-byte blocks.
    Mammoth,
}

/// The class chosen for a request of `size` bytes: the smallest class whose
/// width is at least `size`, or `None` for a zero or over-capacity request.
pub open spec fn spec_categorize(size: usize) -> Option<BlockSize> {
    if size == 0 {
        None
    } else if size <= 8 {
        Some(BlockSize::Tiny)
    } else if size <= 16 {
        Some(BlockSize::Small)
    } else if size <= 32 {
        Some(BlockSize::Medium)
    } else if size <= 64 {
        Some(BlockSize::Large)
    } else if size <= 128 {
        Some(BlockSize::Huge)
    } else if size <= 256 {
        Some(BlockSize::Giant)
    } else if size <= 512 {
        Some(BlockSize::Colossal)
    } else if size <= 1024 {
        Some(BlockSize::Mammoth)
    } else {
        None
    }
}

impl BlockSize {
    /// The largest supported block width in bytes.
    pub const MAX: usize = 1024;

    /// Width in bytes of the blocks of this class.
    pub open spec fn spec_width(self) -> usize {
        match self {
            BlockSize::Tiny => 8usize,
            BlockSize::Small => 16usize,
            BlockSize::Medium => 32usize,
            BlockSize::Large => 64usize,
            BlockSize::Huge => 128usize,
            BlockSize::Giant => 256usize,
            BlockSize::Colossal => 512usize,
            BlockSize::Mammoth => 1024usize,
        }
    }

    /// Position of this class among the eight, in ascending width order.
    pub open spec fn spec_class_index(self) -> usize {
        match self {
            BlockSize::Tiny => 0usize,
            BlockSize::Small => 1usize,
            BlockSize::Medium => 2usize,
            BlockSize::Large => 3usize,
            BlockSize::Huge => 4usize,
            BlockSize::Giant => 5usize,
            BlockSize::Colossal => 6usize,
            BlockSize::Mammoth => 7usize,
        }
    }

    /// Width in bytes of the blocks of this class.
    #[verifier::when_used_as_spec(spec_width)]
    pub fn width(self) -> (w: usize)
        ensures
            w == self.spec_width(),
    {
        match self {
            BlockSize::Tiny => 8,
            BlockSize::Small => 16,
            BlockSize::Medium => 32,
            BlockSize::Large => 64,
            BlockSize::Huge => 128,
            BlockSize::Giant => 256,
            BlockSize::Colossal => 512,
            BlockSize::Mammoth => 1024,
        }
    }

    /// Position of this class among the eight, in ascending width order.
    #[verifier::when_used_as_spec(spec_class_index)]
    pub fn class_index(self) -> (i: usize)
        ensures
            i == self.spec_class_index(),
            i < 8,
    {
        match self {
            BlockSize::Tiny => 0,
            BlockSize::Small => 1,
            BlockSize::Medium => 2,
            BlockSize::Large => 3,
            BlockSize::Huge => 4,
            BlockSize::Giant => 5,
            BlockSize::Colossal => 6,
            BlockSize::Mammoth => 7,
        }
    }

    /// Maps a requested byte count to its size class.
    ///
    /// Returns the smallest class whose width is at least `size`; `None`
    /// exactly when `size` is zero or exceeds the largest width.  When a
    /// class is returned, its width `w` satisfies `size <= w`, and unless the
    /// class is the smallest one, `w / 2 < size`.
    pub fn categorize(size: usize) -> (r: Option<BlockSize>)
        ensures
            r == spec_categorize(size),
            r is Some <==> 1 <= size <= 1024,
            r matches Some(c) ==> size <= c.spec_width(),
            r matches Some(c) ==> c.spec_width() == 8 || c.spec_width() < 2 * size,
    {
        if size == 0 {
            None
        } else if size <= 8 {
            Some(BlockSize::Tiny)
        } else if size <= 16 {
            Some(BlockSize::Small)
        } else if size <= 32 {
            Some(BlockSize::Medium)
        } else if size <= 64 {
            Some(BlockSize::Large)
        } else if size <= 128 {
            Some(BlockSize::Huge)
        } else if size <= 256 {
            Some(BlockSize::Giant)
        } else if size <= 512 {
            Some(BlockSize::Colossal)
        } else if size <= 1024 {
            Some(BlockSize::Mammoth)
        } else {
            None
        }
    }
}

} // verus!
