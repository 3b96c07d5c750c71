use vstd::prelude::*;

use crate::composeable_storage::aligned::{AlignedLength, AlignedLengthType};

verus! {

/// A piece of data split into a prefix and the rest.
pub struct Prefixed<D> {
    prefix: D,
    data: D,
}

/// Splits pieces off a storage and a prefix off each piece.
pub struct Prefixer<S, T: AlignedLengthType> {
    storage: S,
    prefix: AlignedLength<T>,
}

/// Why splitting a piece off failed.
pub enum TryPartitionAffixerError<S, D> {
    Storage(S),
    Data(D),
    Overflow,
}

/// A piece of data split into a prefix, a middle and a suffix, together
/// with the whole it was split from.
pub struct Affixed<D> {
    prefix: D,
    middle: D,
    suffix: D,
    combined: D,
}

/// Splits pieces off a storage and a prefix and a suffix off each piece.
pub struct Affixer<S, T: AlignedLengthType> {
    storage: S,
    prefix: AlignedLength<T>,
    suffix: AlignedLength<T>,
}

} // verus!
