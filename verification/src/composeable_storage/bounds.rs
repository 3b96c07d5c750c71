use vstd::prelude::*;

use crate::composeable_storage::arithmetic_errors::Overflow;
use crate::composeable_storage::count::Count;
use crate::composeable_storage::partition::{Partitioned, TryPartition};

verus! {

/// A value at or above a bound.
#[derive(Clone, Default, PartialEq, Eq, PartialOrd, Ord, Hash, Debug)]
pub struct AtOrAbove<T>(T);

/// A value at or below a bound.
#[derive(Clone, Default, PartialEq, Eq, PartialOrd, Ord, Hash, Debug)]
pub struct AtOrBelow<T>(T);

/// The values from `at_or_above` up to `at_or_below`, the first no
/// greater than the second.
#[derive(Clone, Default, PartialEq, Eq, PartialOrd, Ord, Hash, Debug)]
pub struct AtOrBetween<T> {
    at_or_above: T,
    at_or_below: T,
}

impl<T: Count> AtOrBetween<T> {
    pub closed spec fn spec_at_or_above(self) -> T {
        self.at_or_above
    }

    pub closed spec fn spec_at_or_below(self) -> T {
        self.at_or_below
    }

    /// Returns `None` when `at_or_above` exceeds `at_or_below`.
    pub fn try_new(at_or_above: T, at_or_below: T) -> (r: Option<Self>)
        ensures
            r is Some <==> at_or_above.spec_count() <= at_or_below.spec_count(),
            r matches Some(x) ==> x.spec_at_or_above() == at_or_above && x.spec_at_or_below()
                == at_or_below,
    {
        if at_or_above.le_count(&at_or_below) {
            Some(Self { at_or_above, at_or_below })
        } else {
            None
        }
    }
}

/// An offset above a bound.
#[derive(Clone, Default, PartialEq, Eq, PartialOrd, Ord, Hash, Debug)]
pub struct OffsetAtOrAbove<T> {
    offset: T,
    at_or_above: T,
}

impl<T: Count> OffsetAtOrAbove<T> {
    pub closed spec fn spec_offset(self) -> T {
        self.offset
    }

    pub closed spec fn spec_at_or_above(self) -> T {
        self.at_or_above
    }

    /// Returns `None` when `offset` is negative, which an unsigned count
    /// never is.
    pub fn try_new(offset: T, at_or_above: T) -> (r: Option<Self>)
        ensures
            r matches Some(x) && x.spec_offset() == offset && x.spec_at_or_above() == at_or_above,
    {
        let zero = T::zero();
        if zero.le_count(&offset) {
            Some(Self { offset, at_or_above })
        } else {
            None
        }
    }
}

/// An offset below a bound.
#[derive(Clone, Default, PartialEq, Eq, PartialOrd, Ord, Hash, Debug)]
pub struct OffsetAtOrBelow<T> {
    offset: T,
    at_or_below: T,
}

impl<T: Count> OffsetAtOrBelow<T> {
    pub closed spec fn spec_offset(self) -> T {
        self.offset
    }

    pub closed spec fn spec_at_or_below(self) -> T {
        self.at_or_below
    }

    /// Returns `None` when `offset` is negative, which an unsigned count
    /// never is.
    pub fn try_new(offset: T, at_or_below: T) -> (r: Option<Self>)
        ensures
            r matches Some(x) && x.spec_offset() == offset && x.spec_at_or_below() == at_or_below,
    {
        let zero = T::zero();
        if zero.le_count(&offset) {
            Some(Self { offset, at_or_below })
        } else {
            None
        }
    }
}

/// An offset within the range between two bounds.
#[derive(Clone, Default, PartialEq, Eq, PartialOrd, Ord, Hash, Debug)]
pub struct OffsetAtOrBetween<T> {
    offset: T,
    at_or_above: T,
    at_or_below: T,
}

impl<T: Count> OffsetAtOrBetween<T> {
    pub closed spec fn spec_offset(self) -> T {
        self.offset
    }

    pub closed spec fn spec_at_or_above(self) -> T {
        self.at_or_above
    }

    pub closed spec fn spec_at_or_below(self) -> T {
        self.at_or_below
    }

    /// Returns `None` unless `at_or_above <= at_or_below` and the width
    /// `at_or_below - at_or_above` is no greater than `offset`.
    pub fn try_new(offset: T, at_or_above: T, at_or_below: T) -> (r: Option<Self>)
        ensures
            r is Some <==> (at_or_above.spec_count() <= at_or_below.spec_count()
                && at_or_below.spec_count() - at_or_above.spec_count() <= offset.spec_count()),
            r matches Some(x) ==> x.spec_offset() == offset && x.spec_at_or_above() == at_or_above
                && x.spec_at_or_below() == at_or_below,
    {
        let zero = T::zero();
        if !zero.le_count(&offset) || !at_or_above.le_count(&at_or_below) {
            return None;
        }
        match at_or_below.checked_sub_count(&at_or_above) {
            None => None,
            Some(width) => {
                if width.le_count(&offset) {
                    Some(Self { offset, at_or_above, at_or_below })
                } else {
                    None
                }
            },
        }
    }
}

/// Splitting `storage` off: the data runs from the bound to the bound plus
/// the offset, and what is left starts there with no offset; `Overflow`
/// when the sum does not fit.
pub open spec fn spec_partition_at_or_above<T: Count>(
    storage: OffsetAtOrAbove<T>,
    result: Result<Partitioned<AtOrBetween<T>, OffsetAtOrAbove<T>>, Overflow>,
) -> bool {
    let end = storage.spec_offset().spec_count() + storage.spec_at_or_above().spec_count();
    match result {
        Ok(p) => {
            &&& end <= T::spec_max()
            &&& p.spec_data().spec_at_or_above() == storage.spec_at_or_above()
            &&& p.spec_data().spec_at_or_below().spec_count() == end
            &&& p.spec_storage().spec_offset().spec_count() == 0
            &&& p.spec_storage().spec_at_or_above() == p.spec_data().spec_at_or_below()
        },
        Err(_) => end > T::spec_max(),
    }
}

impl<T: Count> TryPartition<AtOrBetween<T>> for OffsetAtOrAbove<T> {
    type Selector = ();

    type Error = Overflow;

    open spec fn partitions(
        self,
        selector: (),
        result: Result<Partitioned<AtOrBetween<T>, Self>, Overflow>,
    ) -> bool {
        spec_partition_at_or_above(self, result)
    }

    fn try_partition(self, selector: &()) -> (r: Result<Partitioned<AtOrBetween<T>, Self>, Overflow>) {
        match self.offset.checked_add_count(&self.at_or_above) {
            None => Err(Overflow),
            Some(v) => {
                let data = AtOrBetween { at_or_above: self.at_or_above, at_or_below: v };
                let storage = OffsetAtOrAbove { offset: T::zero(), at_or_above: v };
                Ok(Partitioned::new(data, storage))
            },
        }
    }
}

} // verus!
