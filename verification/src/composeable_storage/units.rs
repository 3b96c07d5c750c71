pub mod information;
pub mod system;

use vstd::prelude::*;

use crate::composeable_storage::alignment::is_power_of_two;
use crate::composeable_storage::arithmetic_errors::Overflow;
use crate::composeable_storage::count::Count;
use crate::composeable_storage::nonzero::NonZeroCount;

verus! {

/// Represents a certain number of bytes.
#[derive(Copy, Clone, Default, PartialEq, Eq, PartialOrd, Ord, Hash, Debug)]
pub struct Bytes<T> {
    pub count: T,
}

impl<T: Count> Count for Bytes<T> {
    open spec fn spec_count(&self) -> nat {
        self.count.spec_count()
    }

    open spec fn spec_max() -> nat {
        T::spec_max()
    }

    proof fn lemma_count_bounded(x: &Self) {
        T::lemma_count_bounded(&x.count);
    }

    fn try_from_usize(v: usize) -> (r: Option<Self>) {
        match T::try_from_usize(v) {
            Some(count) => Some(Bytes { count }),
            None => None,
        }
    }

    fn checked_add_count(&self, rhs: &Self) -> (r: Option<Self>) {
        match self.count.checked_add_count(&rhs.count) {
            Some(count) => Some(Bytes { count }),
            None => None,
        }
    }

    fn clear_low_bits(&self, mask: &Self) -> (r: Self) {
        Bytes { count: self.count.clear_low_bits(&mask.count) }
    }

    fn le_count(&self, rhs: &Self) -> (r: bool) {
        self.count.le_count(&rhs.count)
    }

    fn checked_sub_count(&self, rhs: &Self) -> (r: Option<Self>) {
        match self.count.checked_sub_count(&rhs.count) {
            Some(count) => Some(Bytes { count }),
            None => None,
        }
    }

    fn zero() -> (r: Self) {
        Bytes { count: T::zero() }
    }
}

/// Represents a certain number of normal pages (these are usually 4KiB)
#[derive(Copy, Clone, Default, PartialEq, Eq, PartialOrd, Ord, Hash, Debug)]
pub struct Pages<T> {
    pub count: T,
}

/// The number of bytes in `pages` pages of `page_size` bytes each, or
/// `Overflow` when that does not fit in a `usize`.
pub open spec fn spec_pages_to_bytes(pages: nat, page_size: nat) -> Result<nat, Overflow> {
    if pages * page_size <= usize::MAX {
        Ok(pages * page_size)
    } else {
        Err(Overflow)
    }
}

impl Pages<NonZeroCount> {
    /// The number of bytes in these pages when a page holds `page_size`
    /// bytes, or `Overflow` when that does not fit in a `usize`.
    pub fn try_into_bytes(self, page_size: Bytes<NonZeroCount>) -> (r: Result<Bytes<NonZeroCount>, Overflow>)
        ensures
            match (r, spec_pages_to_bytes(self.count.spec_get(), page_size.count.spec_get())) {
                (Ok(b), Ok(n)) => b.count.spec_get() == n,
                (Err(_), Err(_)) => true,
                _ => false,
            },
    {
        match self.count.checked_mul(&page_size.count) {
            Some(count) => Ok(Bytes { count }),
            None => Err(Overflow),
        }
    }
}

impl TryFrom<Pages<NonZeroCount>> for Bytes<NonZeroCount> {
    type Error = Overflow;

    /// The number of bytes in `value` pages of the system's page size.
    fn try_from(value: Pages<NonZeroCount>) -> (r: Result<Self, Self::Error>)
        ensures
            exists|page_size: nat|
                page_size >= 1 && match (r, #[trigger] spec_pages_to_bytes(value.count.spec_get(), page_size)) {
                    (Ok(b), Ok(n)) => b.count.spec_get() == n,
                    (Err(_), Err(_)) => true,
                    _ => false,
                },
    {
        let page_size = crate::composeable_storage::units::information::page_size_bytes();
        value.try_into_bytes(Bytes { count: page_size.count })
    }
}

impl vstd::std_specs::convert::TryFromSpecImpl<Pages<NonZeroCount>> for Bytes<NonZeroCount> {
    open spec fn obeys_try_from_spec() -> bool {
        false
    }

    open spec fn try_from_spec(v: Pages<NonZeroCount>) -> Result<Self, Overflow> {
        Err(Overflow)
    }
}

} // verus!
