use vstd::prelude::*;

verus! {

/// Merges data back into a storage.
pub trait Merge<Data>: Sized {
    fn merge(self, data: Data) -> Self;
}

/// Merges data back into a storage, or fails.
pub trait TryMerge<Data>: Sized {
    type TryMergeError;

    fn try_merge(self, data: Data) -> Result<Self, Self::TryMergeError>;
}

/// Merges data into a storage and becomes something new.
pub trait MergeTransform<Data>: Sized {
    type New;

    fn merge_transform(self, data: Data) -> Self::New;
}

/// Merges data into a storage and becomes something new, or fails.
pub trait TryMergeTransform<Data>: Sized {
    type TryMergeTransformError;

    type New;

    fn try_merge_transform(self, data: Data) -> Result<Self::New, Self::TryMergeTransformError>;
}

/// Merges `data` into `self`, giving a value of another type, or fails.
pub trait TryMergeInto<Data, New>: Sized {
    type TryMergeIntoError;

    fn try_merge_into(self, data: Data) -> Result<New, Self::TryMergeIntoError>;
}

} // verus!
