use vstd::prelude::*;

verus! {

/// The size of a global allocation.
pub enum GlobalAllocSize {
    Bytes(),
}

/// Allocations of one layout from the global allocator.
pub struct GlobalAlloc {
    layout: std::alloc::Layout,
}

impl GlobalAlloc {
    /// The layout of every allocation.
    pub closed spec fn spec_layout(&self) -> std::alloc::Layout {
        self.layout
    }

    /// Allocations of `layout`.
    pub fn new(layout: std::alloc::Layout) -> (r: GlobalAlloc)
        ensures
            r.spec_layout() == layout,
    {
        GlobalAlloc { layout }
    }

    /// The layout of every allocation.
    pub fn layout(&self) -> (r: std::alloc::Layout)
        ensures
            r == self.spec_layout(),
    {
        self.layout
    }
}

/// Why an allocation from the global allocator failed.
pub enum GlobalAllocPartitionError {
    ZeroSizedLayout,
    GlobalAllocFailed,
}

} // verus!
