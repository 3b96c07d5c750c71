use vstd::prelude::*;

verus! {

/// A value at or above a bound.
#[derive(Clone, Default, PartialEq, Eq, PartialOrd, Ord, Hash, Debug)]
pub struct AtOrAbove<T>(T);

/// A value at or below a bound.
#[derive(Clone, Default, PartialEq, Eq, PartialOrd, Ord, Hash, Debug)]
pub struct AtOrBelow<T>(T);

/// A range between two bounds, the first no greater than the second.
#[derive(Clone, Default, PartialEq, Eq, PartialOrd, Ord, Hash, Debug)]
pub struct AtOrBetween<T: PartialOrd> {
    at_or_above: T,
    at_or_below: T,
}

} // verus!
