use vstd::prelude::*;

use crate::composeable_storage::nonzero::NonZeroCount;
use crate::composeable_storage::units::information::page_size_bytes;

verus! {

/// Anonymous mappings of whole pages, made and removed by the system.
pub struct Mmap;

/// The bytes in `page_count` pages of `page_size` bytes, or `usize::MAX`
/// when that does not fit in a `usize`.
pub open spec fn spec_mapping_length(page_count: nat, page_size: nat) -> nat {
    if page_count * page_size <= usize::MAX {
        page_count * page_size
    } else {
        usize::MAX as nat
    }
}

impl Mmap {
    /// How many bytes a mapping of `page_count` pages of `page_size` bytes
    /// asks for: their product, saturated at `usize::MAX`.
    pub fn mapping_length_with(page_count: NonZeroCount, page_size: NonZeroCount) -> (r: NonZeroCount)
        ensures
            r.spec_get() == spec_mapping_length(page_count.spec_get(), page_size.spec_get()),
    {
        page_count.saturating_mul(&page_size)
    }

    /// How many bytes a mapping of `page_count` normal pages of this system
    /// asks for: the count times the page size, saturated at `usize::MAX`.
    pub fn mapping_length(&self, page_count: NonZeroCount) -> (r: NonZeroCount)
        ensures
            exists|page_size: nat|
                page_size >= 1 && r.spec_get() == #[trigger] spec_mapping_length(page_count.spec_get(), page_size),
    {
        let page_size = page_size_bytes().count;
        Self::mapping_length_with(page_count, page_size)
    }
}

} // verus!
