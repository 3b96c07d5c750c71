use vstd::prelude::*;

use crate::composeable_storage::nonzero::NonZeroCount;

verus! {

/// Represents a certain number of bytes.
#[derive(Copy, Clone, Default, PartialEq, Eq, PartialOrd, Ord, Hash, Debug)]
pub struct Bytes<T> {
    pub count: T,
}

/// Represents a certain number of L1 (data) cache lines.
#[derive(Copy, Clone, Default, PartialEq, Eq, PartialOrd, Ord, Hash, Debug)]
pub struct L1CacheLines<T> {
    pub count: T,
}

/// Represents a certain number of L2 cache lines.
#[derive(Copy, Clone, Default, PartialEq, Eq, PartialOrd, Ord, Hash, Debug)]
pub struct L2CacheLines<T> {
    pub count: T,
}

/// Represents a certain number of L3 cache lines.
#[derive(Copy, Clone, Default, PartialEq, Eq, PartialOrd, Ord, Hash, Debug)]
pub struct L3CacheLines<T> {
    pub count: T,
}

/// Represents a certain number of normal pages.
#[derive(Copy, Clone, Default, PartialEq, Eq, PartialOrd, Ord, Hash, Debug)]
pub struct Pages<T> {
    pub count: T,
}

/// The error of a conversion whose result does not fit in its type.
#[derive(Clone, Copy, PartialEq, Eq, Debug)]
pub struct Overflow;

/// Represents a certain number of huge pages.
#[derive(Clone, Default, PartialEq, Eq, PartialOrd, Ord, Hash, Debug)]
pub struct HugePages<T> {
    pub count: T,
}

/// Calls `rustix::param::page_size`, which returns `sysconf(_SC_PAGESIZE)`.
/// Its documentation refers to POSIX, whose minimum acceptable value for
/// the page size is one byte, so the result is claimed to be at least one.
/// Which value comes back depends on the machine and is not stated.
#[verifier::external_body]
fn system_page_size() -> (r: usize)
    ensures
        r >= 1,
{
    rustix::param::page_size()
}

/// The size in bytes of a normal page on this system.
pub(crate) fn page_size_bytes() -> (r: Bytes<NonZeroCount>)
    ensures
        r.count.spec_get() >= 1,
{
    let count = system_page_size();
    match NonZeroCount::new(count) {
        Some(n) => Bytes { count: n },
        None => {
            assert(false);
            Bytes { count: NonZeroCount::new(1).unwrap() }
        },
    }
}

/// The number of bytes in `pages` pages of `page_size` bytes each, or
/// `Overflow` when that does not fit in a `usize`.
pub open spec fn spec_pages_to_bytes(pages: nat, page_size: nat) -> Result<nat, Overflow> {
    if pages * page_size <= usize::MAX {
        Ok(pages * page_size)
    } else {
        Err(Overflow)
    }
}

impl Pages<NonZeroCount> {
    /// The number of bytes in these pages when a page holds `page_size`
    /// bytes, or `Overflow` when that does not fit in a `usize`.
    pub fn try_into_bytes(self, page_size: Bytes<NonZeroCount>) -> (r: Result<Bytes<NonZeroCount>, Overflow>)
        ensures
            match (r, spec_pages_to_bytes(self.count.spec_get(), page_size.count.spec_get())) {
                (Ok(b), Ok(n)) => b.count.spec_get() == n,
                (Err(_), Err(_)) => true,
                _ => false,
            },
    {
        match self.count.checked_mul(&page_size.count) {
            Some(count) => Ok(Bytes { count }),
            None => Err(Overflow),
        }
    }
}

impl TryFrom<Pages<NonZeroCount>> for Bytes<NonZeroCount> {
    type Error = Overflow;

    /// The number of bytes in `value` pages of the system's page size.
    fn try_from(value: Pages<NonZeroCount>) -> (r: Result<Self, Self::Error>)
        ensures
            exists|page_size: nat|
                page_size >= 1 && match (r, #[trigger] spec_pages_to_bytes(value.count.spec_get(), page_size)) {
                    (Ok(b), Ok(n)) => b.count.spec_get() == n,
                    (Err(_), Err(_)) => true,
                    _ => false,
                },
    {
        let page_size = page_size_bytes();
        value.try_into_bytes(page_size)
    }
}

impl vstd::std_specs::convert::TryFromSpecImpl<Pages<NonZeroCount>> for Bytes<NonZeroCount> {
    open spec fn obeys_try_from_spec() -> bool {
        false
    }

    open spec fn try_from_spec(v: Pages<NonZeroCount>) -> Result<Self, Overflow> {
        Err(Overflow)
    }
}

} // verus!
