use vstd::prelude::*;

verus! {

/// Why splitting a slice of RAM into a prefix, a middle and a suffix
/// failed: the RAM itself could not be split, or the lengths asked for do
/// not fit it.
pub enum AffixerPartitionError<E> {
    RamPartitionErrror(E),
    LayoutPartitionError,
}

} // verus!
