use vstd::prelude::*;

use crate::composeable_storage::alignment::Alignment;

verus! {

/// A size and an alignment.
pub struct AlignedSize {
    size: usize,
    alignment: Alignment,
}

impl AlignedSize {
    pub closed spec fn spec_size(self) -> usize {
        self.size
    }

    pub closed spec fn spec_alignment(self) -> Alignment {
        self.alignment
    }

    pub fn new(size: usize, alignment: Alignment) -> (r: Self)
        ensures
            r.spec_size() == size,
            r.spec_alignment() == alignment,
    {
        Self { size, alignment }
    }
}

/// An aligned size and an offset no greater than the size.
pub struct OffsetAlignedSize {
    aligned_size: AlignedSize,
    offset: usize,
}

impl OffsetAlignedSize {
    pub closed spec fn spec_aligned_size(self) -> AlignedSize {
        self.aligned_size
    }

    pub closed spec fn spec_offset(self) -> usize {
        self.offset
    }

    /// Returns `None` when `offset` exceeds the size.
    pub fn try_new(aligned_size: AlignedSize, offset: usize) -> (r: Option<Self>)
        ensures
            r is Some <==> offset <= aligned_size.spec_size(),
            r matches Some(x) ==> x.spec_aligned_size() == aligned_size && x.spec_offset() == offset,
    {
        if offset <= aligned_size.size {
            Some(Self { aligned_size, offset })
        } else {
            None
        }
    }
}

} // verus!
