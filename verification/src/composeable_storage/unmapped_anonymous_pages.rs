use vstd::prelude::*;

use crate::composeable_storage::alignment::{Alignment, is_power_of_two};
use crate::composeable_storage::nonzero::NonZeroCount;
use crate::composeable_storage::units::information::{page_size_bytes, spec_pages_to_bytes, Bytes, Pages};

verus! {

/// Anonymous pages not yet mapped, handed out `len_bytes` at a time.
pub struct UnmappedAnonymousPages {
    len_bytes: Bytes<NonZeroCount>,
}

impl UnmappedAnonymousPages {
    /// How many bytes each mapping holds.
    pub closed spec fn spec_len_bytes(self) -> nat {
        self.len_bytes.count.spec_get()
    }

    /// Mappings of `pages_per_partition` pages of `page_size` bytes; `None`
    /// when the page size is not a power of two or the byte count does not
    /// fit in a `usize`.
    pub fn try_new_with_page_size(pages_per_partition: Pages<NonZeroCount>, page_size: Bytes<NonZeroCount>) -> (r: Option<Self>)
        ensures
            r is Some <==> (is_power_of_two(page_size.count.spec_get())
                && spec_pages_to_bytes(pages_per_partition.count.spec_get(), page_size.count.spec_get()) is Ok),
            r matches Some(x) ==> x.spec_len_bytes() == pages_per_partition.count.spec_get()
                * page_size.count.spec_get(),
    {
        if Alignment::new(page_size.count.get()).is_none() {
            None
        } else {
            match pages_per_partition.try_into_bytes(page_size) {
                Ok(len_bytes) => Some(Self { len_bytes }),
                Err(_) => None,
            }
        }
    }

    /// Mappings of `pages_per_partition` normal pages of this system; `None`
    /// when its page size is not a power of two or the byte count does not
    /// fit in a `usize`.
    pub fn try_new_normal(pages_per_partition: Pages<NonZeroCount>) -> (r: Option<Self>)
        ensures
            exists|page_size: nat|
                page_size >= 1 && (r is Some <==> (is_power_of_two(page_size)
                    && #[trigger] spec_pages_to_bytes(pages_per_partition.count.spec_get(), page_size) is Ok))
                    && (r matches Some(x) ==> x.spec_len_bytes() == pages_per_partition.count.spec_get() * page_size),
    {
        let page_size = page_size_bytes();
        Self::try_new_with_page_size(pages_per_partition, page_size)
    }

    /// How many bytes each mapping holds.
    pub fn len_bytes(&self) -> (r: Bytes<NonZeroCount>)
        ensures
            r.count.spec_get() == self.spec_len_bytes(),
    {
        self.len_bytes
    }
}

} // verus!
