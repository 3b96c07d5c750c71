use vstd::prelude::*;

use crate::composeable_storage::nonzero::NonZeroCount;

verus! {

/// A number of bytes.
#[derive(Clone, Copy, PartialEq, Eq, PartialOrd, Ord, Hash, Debug)]
pub struct Bytes<T>(pub T);

impl Bytes<NonZeroCount> {
    pub fn non_zero_usize(self) -> (r: NonZeroCount)
        ensures
            r == self.0,
    {
        self.0
    }

    pub fn usize(self) -> (r: usize)
        ensures
            r == self.0.spec_get(),
            r > 0,
    {
        self.0.get()
    }
}

} // verus!
