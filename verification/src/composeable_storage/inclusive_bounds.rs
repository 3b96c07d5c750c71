use vstd::prelude::*;

use crate::composeable_storage::count::Count;

verus! {

/// A bound that values at or above it satisfy.
#[derive(Clone, Copy)]
pub struct InclusiveLowerBound<O>(pub O);

/// A bound that values at or below it satisfy.
#[derive(Clone, Copy)]
pub struct InclusiveUpperBound<O>(pub O);

/// A lower and an upper bound, the lower no greater than the upper.
#[derive(Clone, Copy)]
pub struct InclusiveBounds<O> {
    lower: InclusiveLowerBound<O>,
    upper: InclusiveUpperBound<O>,
}

impl<O: Count> InclusiveBounds<O> {
    pub closed spec fn spec_lower(self) -> InclusiveLowerBound<O> {
        self.lower
    }

    pub closed spec fn spec_upper(self) -> InclusiveUpperBound<O> {
        self.upper
    }

    /// Returns `None` when `lower` exceeds `upper`.
    pub fn try_new(lower: InclusiveLowerBound<O>, upper: InclusiveUpperBound<O>) -> (r: Option<Self>)
        ensures
            r is Some <==> lower.0.spec_count() <= upper.0.spec_count(),
            r matches Some(b) ==> b.spec_lower() == lower && b.spec_upper() == upper,
    {
        if lower.0.le_count(&upper.0) {
            Some(Self { lower, upper })
        } else {
            None
        }
    }

    pub fn lower_ref(&self) -> (r: &InclusiveLowerBound<O>)
        ensures
            *r == self.spec_lower(),
    {
        &self.lower
    }

    pub fn upper_ref(&self) -> (r: &InclusiveUpperBound<O>)
        ensures
            *r == self.spec_upper(),
    {
        &self.upper
    }

    pub fn lower(&self) -> (r: InclusiveLowerBound<O>)
        ensures
            r == self.spec_lower(),
    {
        self.lower
    }

    pub fn upper(&self) -> (r: InclusiveUpperBound<O>)
        ensures
            r == self.spec_upper(),
    {
        self.upper
    }
}

} // verus!
