use vstd::prelude::*;

use crate::composeable_storage::aligned::AlignedLength;
use crate::composeable_storage::alignment::Alignment;
use crate::composeable_storage::arithmetic_errors::Overflow;
use crate::composeable_storage::count::Count;
use crate::composeable_storage::layout::{layout_accepts, layout_from_size_align};
use crate::composeable_storage::merge::TryMergeTransform;
use crate::composeable_storage::units::Bytes;

verus! {

/// A storage whose pieces are all `length` long and aligned to `alignment`.
#[derive(Clone, Copy, PartialEq, Eq, PartialOrd, Ord, Hash, Debug)]
pub struct LowerBounded<L, S> {
    alignment: Alignment,
    length: L,
    storage: S,
}

impl<L, S> LowerBounded<L, S> {
    pub closed spec fn spec_alignment(self) -> Alignment {
        self.alignment
    }

    pub closed spec fn spec_length(self) -> L {
        self.length
    }

    pub closed spec fn spec_storage(self) -> S {
        self.storage
    }

    pub fn new(alignment: Alignment, length: L, storage: S) -> (r: Self)
        ensures
            r.spec_alignment() == alignment,
            r.spec_length() == length,
            r.spec_storage() == storage,
    {
        Self { alignment, length, storage }
    }

    pub fn alignment(&self) -> (r: Alignment)
        ensures
            r == self.spec_alignment(),
    {
        self.alignment
    }

    pub fn length_ref(&self) -> (r: &L)
        ensures
            *r == self.spec_length(),
    {
        &self.length
    }

    pub fn storage_ref(&self) -> (r: &S)
        ensures
            *r == self.spec_storage(),
    {
        &self.storage
    }
}

impl<L, S> From<LowerBounded<L, S>> for (Alignment, L, S) {
    fn from(value: LowerBounded<L, S>) -> (r: Self) {
        (value.alignment, value.length, value.storage)
    }
}

impl<L, S> vstd::std_specs::convert::FromSpecImpl<LowerBounded<L, S>> for (Alignment, L, S) {
    open spec fn obeys_from_spec() -> bool {
        true
    }

    open spec fn from_spec(v: LowerBounded<L, S>) -> (Alignment, L, S) {
        (v.spec_alignment(), v.spec_length(), v.spec_storage())
    }
}

impl<G> LowerBounded<Bytes<usize>, G> {
    /// Pieces of `bytes_per_partition` bytes aligned to `alignment` taken
    /// from `global_alloc`; `None` when the size is zero, which no
    /// allocation may have, or no `std::alloc::Layout` has that size and
    /// alignment.
    pub fn try_new_global(alignment: Alignment, bytes_per_partition: Bytes<usize>, global_alloc: G) -> (r: Option<Self>)
        ensures
            r is Some <==> bytes_per_partition.count > 0 && layout_accepts(bytes_per_partition.count as nat, alignment.spec_value()),
            r matches Some(x) ==> x.spec_alignment() == alignment && x.spec_length()
                == bytes_per_partition && x.spec_storage() == global_alloc,
    {
        if bytes_per_partition.count == 0 {
            return None;
        }
        match layout_from_size_align(bytes_per_partition.count, alignment.as_usize()) {
            Ok(_) => Some(Self::new(alignment, bytes_per_partition, global_alloc)),
            Err(_) => None,
        }
    }
}

/// A failed allocation.
#[derive(Copy, Clone, Debug, PartialEq, Eq)]
pub struct GlobalAllocFailed;

impl<G> TryMergeTransform<AlignedLength<Bytes<usize>>> for G {
    type TryMergeTransformError = Overflow;

    type New = LowerBounded<Bytes<usize>, G>;

    /// Pieces of `data`'s length and alignment taken from `self`;
    /// `Overflow` when the length is zero, which no allocation may have, or
    /// no `std::alloc::Layout` has that size and alignment.
    fn try_merge_transform(self, data: AlignedLength<Bytes<usize>>) -> (r: Result<LowerBounded<Bytes<usize>, G>, Overflow>)
        ensures
            r is Ok <==> data.spec_length().count > 0 && layout_accepts(
                data.spec_length().count as nat,
                data.spec_alignment().spec_value(),
            ),
            r matches Ok(x) ==> x.spec_alignment() == data.spec_alignment() && x.spec_length()
                == data.spec_length() && x.spec_storage() == self,
    {
        let size_bytes = *data.length();
        if size_bytes.count == 0 {
            return Err(Overflow);
        }
        let align = data.alignment().as_usize();
        match layout_from_size_align(size_bytes.count, align) {
            Err(_) => Err(Overflow),
            Ok(_) => Ok(LowerBounded { alignment: *data.alignment(), length: size_bytes, storage: self }),
        }
    }
}

} // verus!
