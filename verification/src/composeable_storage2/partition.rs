use vstd::prelude::*;

verus! {

/// A storage that hands out values picked by a selector, or fails.
pub trait Partition<T> {
    type Error;

    type Selector;

    fn partition(&mut self, selector: Self::Selector) -> Result<T, Self::Error>;
}

} // verus!
