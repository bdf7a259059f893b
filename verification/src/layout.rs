//! The shape of a buffer's block of memory.
use vstd::prelude::*;

verus! {

/// Size and alignment of a block of memory, in bytes.
#[derive(Clone, Copy, Debug, PartialEq, Eq, Structural)]
pub struct Layout {
    size: usize,
    align: usize,
}

impl Layout {
    /// The number of bytes in the block.
    pub closed spec fn spec_size(&self) -> usize {
        self.size
    }

    /// The alignment of the block's first byte.
    pub closed spec fn spec_align(&self) -> usize {
        self.align
    }

    /// The layout of `size` bytes, each aligned to one byte.
    pub fn bytes(size: usize) -> (layout: Layout)
        ensures
            layout.size() == size,
            layout.align() == 1,
    {
        Layout { size, align: 1 }
    }

    /// The number of bytes in the block.
    #[verifier::when_used_as_spec(spec_size)]
    pub fn size(&self) -> (size: usize)
        ensures
            size == self.spec_size(),
    {
        self.size
    }

    /// The alignment of the block's first byte.
    #[verifier::when_used_as_spec(spec_align)]
    pub fn align(&self) -> (align: usize)
        ensures
            align == self.spec_align(),
    {
        self.align
    }
}

} // verus!
