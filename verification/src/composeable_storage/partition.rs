use vstd::prelude::*;

verus! {

/// A storage that can be split into a piece of data and the rest of the
/// storage.
pub trait TryPartition<Data>: Sized {
    /// What picks the piece to split off.
    type Selector;

    /// Why a split can fail.
    type Error;

    /// Which outcomes splitting `self` with `selector` may have.
    spec fn partitions(
        self,
        selector: Self::Selector,
        result: Result<Partitioned<Data, Self>, Self::Error>,
    ) -> bool;

    fn try_partition(self, selector: &Self::Selector) -> (r: Result<Partitioned<Data, Self>, Self::Error>)
        ensures
            self.partitions(*selector, r),
    ;
}

/// A piece of data split off a storage, together with the rest of the storage.
#[derive(Clone, Default, PartialEq, Eq, PartialOrd, Ord, Hash, Debug)]
pub struct Partitioned<Data, Storage> {
    data: Data,
    storage: Storage,
}

impl<D, S> Partitioned<D, S> {
    pub closed spec fn spec_data(self) -> D {
        self.data
    }

    pub closed spec fn spec_storage(self) -> S {
        self.storage
    }

    pub fn new(data: D, storage: S) -> (r: Self)
        ensures
            r.spec_data() == data,
            r.spec_storage() == storage,
    {
        Self { data, storage }
    }

    pub fn data(&self) -> (r: &D)
        ensures
            *r == self.spec_data(),
    {
        &self.data
    }

    pub fn storage(&self) -> (r: &S)
        ensures
            *r == self.spec_storage(),
    {
        &self.storage
    }
}

impl<D, S> From<Partitioned<D, S>> for (D, S) {
    fn from(value: Partitioned<D, S>) -> (r: Self) {
        (value.data, value.storage)
    }
}

impl<D, S> vstd::std_specs::convert::FromSpecImpl<Partitioned<D, S>> for (D, S) {
    open spec fn obeys_from_spec() -> bool {
        true
    }

    open spec fn from_spec(v: Partitioned<D, S>) -> (D, S) {
        (v.spec_data(), v.spec_storage())
    }
}

} // verus!
