use vstd::prelude::*;

use crate::composeable_storage::alignment::Alignment;
use crate::composeable_storage::layout::{layout_accepts, layout_from_size_align};
use crate::composeable_storage::nonzero::NonZeroCount;

verus! {

/// Represents all of the unused slices of RAM which can be returned from
/// a global allocator's `alloc` using the same size and alignment: a
/// nonzero size and an alignment that `std::alloc::Layout` accepts.
pub struct UnusedRam<G> {
    global_alloc: G,
    size: NonZeroCount,
    alignment: Alignment,
}

impl<G> UnusedRam<G> {
    #[verifier::type_invariant]
    spec fn inv(self) -> bool {
        layout_accepts(self.size.spec_get(), self.alignment.spec_value())
    }

    pub closed spec fn spec_global_alloc(self) -> G {
        self.global_alloc
    }

    /// How many bytes each slice has.
    pub closed spec fn spec_size(self) -> nat {
        self.size.spec_get()
    }

    /// The alignment of every slice.
    pub closed spec fn spec_alignment(self) -> Alignment {
        self.alignment
    }

    /// Returns the unused slices of ram managed by a specific global
    /// allocator which are `size` bytes long and which are all aligned to
    /// `alignment`. Returns `None` if `size` becomes larger than
    /// `isize::MAX` when rounded up to `alignment`.
    pub fn try_new(global_alloc: G, size: NonZeroCount, alignment: Alignment) -> (r: Option<Self>)
        ensures
            r is Some <==> layout_accepts(size.spec_get(), alignment.spec_value()),
            r matches Some(x) ==> {
                &&& x.spec_global_alloc() == global_alloc
                &&& x.spec_size() == size.spec_get()
                &&& x.spec_alignment() == alignment
            },
    {
        match layout_from_size_align(size.get(), alignment.as_usize()) {
            Ok(_) => Some(Self { global_alloc, size, alignment }),
            Err(_) => None,
        }
    }

    /// How many bytes each slice has (a `NonZeroCount`, so at least one),
    /// such that a `std::alloc::Layout` of it and the alignment exists.
    pub fn size(&self) -> (r: NonZeroCount)
        ensures
            r.spec_get() == self.spec_size(),
            layout_accepts(self.spec_size(), self.spec_alignment().spec_value()),
    {
        proof {
            use_type_invariant(self);
        }
        self.size
    }

    /// The alignment of every slice.
    pub fn alignment(&self) -> (r: Alignment)
        ensures
            r == self.spec_alignment(),
    {
        self.alignment
    }

    /// The allocator the slices come from.
    pub fn global_alloc(&self) -> (r: &G)
        ensures
            *r == self.spec_global_alloc(),
    {
        &self.global_alloc
    }
}

/// A failed allocation.
#[derive(Clone, Copy, Debug)]
pub struct GlobalAllocFailed;

} // verus!
