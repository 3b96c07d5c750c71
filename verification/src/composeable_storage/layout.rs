use vstd::prelude::*;

use crate::composeable_storage::aligned::round_up;
use crate::composeable_storage::alignment::is_power_of_two;

verus! {

/// The size and alignment of a block of memory, as `std::alloc` takes it.
#[verifier::external_type_specification]
#[verifier::external_body]
pub struct ExLayout(std::alloc::Layout);

/// Why `std::alloc::Layout::from_size_align` refused its arguments.
#[verifier::external_type_specification]
#[verifier::external_body]
pub struct ExLayoutError(std::alloc::LayoutError);

/// The condition under which `std::alloc::Layout::from_size_align` accepts
/// its arguments, as its documentation gives it: `align` is a power of two
/// and `size` rounded up to a multiple of `align` is at most `isize::MAX`.
pub open spec fn layout_accepts(size: nat, align: nat) -> bool {
    &&& is_power_of_two(align)
    &&& round_up(size, align) <= isize::MAX
}

/// Calls `std::alloc::Layout::from_size_align`. Its documentation says it
/// returns an error exactly when `align` is not a power of two or `size`
/// rounded up to `align` exceeds `isize::MAX`; that is what is claimed.
/// Nothing is claimed of the `Layout` it returns.
#[verifier::external_body]
pub(crate) fn layout_from_size_align(size: usize, align: usize) -> (r: Result<std::alloc::Layout, std::alloc::LayoutError>)
    ensures
        r is Ok <==> layout_accepts(size as nat, align as nat),
{
    std::alloc::Layout::from_size_align(size, align)
}

} // verus!
