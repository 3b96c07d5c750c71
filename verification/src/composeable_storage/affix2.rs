use vstd::prelude::*;

use crate::composeable_storage::aligned::{AlignedLength, AlignedLengthType};
use crate::composeable_storage::partition::{Partitioned, TryPartition};

verus! {

/// A piece of data split into a prefix, a middle and a suffix, together
/// with the whole it was split from.
pub struct Affixed<D> {
    prefix: D,
    middle: D,
    suffix: D,
    combined: D,
}

impl<D> Affixed<D> {
    pub closed spec fn spec_prefix(self) -> D {
        self.prefix
    }

    pub closed spec fn spec_middle(self) -> D {
        self.middle
    }

    pub closed spec fn spec_suffix(self) -> D {
        self.suffix
    }

    pub closed spec fn spec_combined(self) -> D {
        self.combined
    }

    pub fn prefix(&self) -> (r: &D)
        ensures
            *r == self.spec_prefix(),
    {
        &self.prefix
    }

    pub fn middle(&self) -> (r: &D)
        ensures
            *r == self.spec_middle(),
    {
        &self.middle
    }

    pub fn suffix(&self) -> (r: &D)
        ensures
            *r == self.spec_suffix(),
    {
        &self.suffix
    }

    pub fn combined(&self) -> (r: &D)
        ensures
            *r == self.spec_combined(),
    {
        &self.combined
    }
}

/// Splits pieces off a storage and each piece into a prefix (before
/// `prefix_offset`), a middle and a suffix (from `suffix_offset` on).
pub struct Affixer<S, L: AlignedLengthType> {
    storage: S,
    prefix_offset: L,
    suffix_offset: L,
    combined_length: L,
}

impl<S, L: AlignedLengthType> Affixer<S, L> {
    pub closed spec fn spec_storage(self) -> S {
        self.storage
    }

    pub closed spec fn spec_prefix_offset(self) -> L {
        self.prefix_offset
    }

    pub closed spec fn spec_suffix_offset(self) -> L {
        self.suffix_offset
    }

    pub closed spec fn spec_combined_length(self) -> L {
        self.combined_length
    }

    pub fn new(storage: S, prefix_offset: L, suffix_offset: L, combined_length: L) -> (r: Self)
        ensures
            r.spec_storage() == storage,
            r.spec_prefix_offset() == prefix_offset,
            r.spec_suffix_offset() == suffix_offset,
            r.spec_combined_length() == combined_length,
    {
        Affixer { storage, prefix_offset, suffix_offset, combined_length }
    }
}

/// Why splitting a piece off an [`Affixer`] failed: the storage refused,
/// or the piece could not be split at an offset.
pub enum TryPartitionAffixerError<S, D> {
    Storage(S),
    Data(D),
}

/// The outcomes of splitting a piece off `affixer` with `selector`: a piece
/// split off the storage, a clone of it split at the suffix offset, and
/// the part before the suffix split at the prefix offset; the first
/// failure ends it.
pub open spec fn affixer_partitions<L, D, S>(
    affixer: Affixer<S, L>,
    selector: AlignedLength<L>,
    result: Result<Partitioned<Affixed<D>, Affixer<S, L>>, TryPartitionAffixerError<S::Error, D::Error>>,
) -> bool where
    L: AlignedLengthType,
    D: TryPartition<D, Selector = L> + Clone,
    S: TryPartition<D, Selector = AlignedLength<L>>,
 {
    let storage = affixer.spec_storage();
    let prefix_offset = affixer.spec_prefix_offset();
    let suffix_offset = affixer.spec_suffix_offset();
    match result {
        Err(TryPartitionAffixerError::Storage(e)) => storage.partitions(selector, Err(e)),
        Err(TryPartitionAffixerError::Data(e)) => exists|sp: Partitioned<D, S>, c: D|
            #![trigger storage.partitions(selector, Ok(sp)), cloned(sp.spec_data(), c)]
            {
                &&& storage.partitions(selector, Ok(sp))
                &&& cloned(sp.spec_data(), c)
                &&& (c.partitions(suffix_offset, Err(e)) || exists|sfx: Partitioned<D, D>|
                    #[trigger] c.partitions(suffix_offset, Ok(sfx))
                        && sfx.spec_data().partitions(prefix_offset, Err(e)))
            },
        Ok(p) => exists|sp: Partitioned<D, S>, c: D, sfx: Partitioned<D, D>, mid: Partitioned<D, D>|
            #![trigger storage.partitions(selector, Ok(sp)), cloned(sp.spec_data(), c), c.partitions(suffix_offset, Ok(sfx)), sfx.spec_data().partitions(prefix_offset, Ok(mid))]
            {
                &&& storage.partitions(selector, Ok(sp))
                &&& cloned(sp.spec_data(), c)
                &&& c.partitions(suffix_offset, Ok(sfx))
                &&& sfx.spec_data().partitions(prefix_offset, Ok(mid))
                &&& p.spec_data().spec_prefix() == mid.spec_data()
                &&& p.spec_data().spec_middle() == mid.spec_storage()
                &&& p.spec_data().spec_suffix() == sfx.spec_storage()
                &&& p.spec_data().spec_combined() == sp.spec_data()
                &&& p.spec_storage().spec_storage() == sp.spec_storage()
                &&& p.spec_storage().spec_prefix_offset() == prefix_offset
                &&& p.spec_storage().spec_suffix_offset() == suffix_offset
                &&& p.spec_storage().spec_combined_length() == affixer.spec_combined_length()
            },
    }
}

/// For any pieces `D` that split like a stretch of storage cut at an
/// offset (measured by `len`: a split at `off` hands out the first `off`
/// units as its data and keeps the rest, and a clone is as long as what it
/// was cloned from), a piece split by an affixer is cut into a prefix as
/// long as the prefix offset, a middle running from the prefix offset to the
/// suffix offset, and a suffix running from the suffix offset to the end of
/// the whole piece.
pub proof fn lemma_affixed_lengths<L, D, S>(
    affixer: Affixer<S, L>,
    selector: AlignedLength<L>,
    p: Partitioned<Affixed<D>, Affixer<S, L>>,
    len: spec_fn(D) -> nat,
) where
    L: AlignedLengthType,
    D: TryPartition<D, Selector = L> + Clone,
    S: TryPartition<D, Selector = AlignedLength<L>>,

    requires
        affixer_partitions(affixer, selector, Ok(p)),
        forall|a: D, b: D| #[trigger] cloned(a, b) ==> len(a) == len(b),
        forall|d: D, off: L, q: Partitioned<D, D>| #[trigger] d.partitions(off, Ok(q)) ==> {
            &&& len(q.spec_data()) == off.spec_count()
            &&& len(q.spec_data()) + len(q.spec_storage()) == len(d)
        },
    ensures
        len(p.spec_data().spec_prefix()) == affixer.spec_prefix_offset().spec_count(),
        len(p.spec_data().spec_middle()) + affixer.spec_prefix_offset().spec_count()
            == affixer.spec_suffix_offset().spec_count(),
        len(p.spec_data().spec_suffix()) + affixer.spec_suffix_offset().spec_count()
            == len(p.spec_data().spec_combined()),
{
    let storage = affixer.spec_storage();
    let prefix_offset = affixer.spec_prefix_offset();
    let suffix_offset = affixer.spec_suffix_offset();
    let (sp, c, sfx, mid) = choose|sp: Partitioned<D, S>, c: D, sfx: Partitioned<D, D>, mid: Partitioned<D, D>| {
        &&& storage.partitions(selector, Ok(sp))
        &&& cloned(sp.spec_data(), c)
        &&& c.partitions(suffix_offset, Ok(sfx))
        &&& sfx.spec_data().partitions(prefix_offset, Ok(mid))
        &&& p.spec_data().spec_prefix() == mid.spec_data()
        &&& p.spec_data().spec_middle() == mid.spec_storage()
        &&& p.spec_data().spec_suffix() == sfx.spec_storage()
        &&& p.spec_data().spec_combined() == sp.spec_data()
        &&& p.spec_storage().spec_storage() == sp.spec_storage()
        &&& p.spec_storage().spec_prefix_offset() == prefix_offset
        &&& p.spec_storage().spec_suffix_offset() == suffix_offset
        &&& p.spec_storage().spec_combined_length() == affixer.spec_combined_length()
    };
    assert(cloned(sp.spec_data(), c));
    assert(c.partitions(suffix_offset, Ok(sfx)));
    assert(sfx.spec_data().partitions(prefix_offset, Ok(mid)));
}

impl<L, D, S> TryPartition<Affixed<D>> for Affixer<S, L> where
    L: AlignedLengthType,
    D: TryPartition<D, Selector = L> + Clone,
    S: TryPartition<D, Selector = AlignedLength<L>>,
 {
    type Selector = AlignedLength<L>;

    type Error = TryPartitionAffixerError<S::Error, D::Error>;

    open spec fn partitions(
        self,
        selector: AlignedLength<L>,
        result: Result<Partitioned<Affixed<D>, Self>, TryPartitionAffixerError<S::Error, D::Error>>,
    ) -> bool {
        affixer_partitions(self, selector, result)
    }

    fn try_partition(self, selector: &AlignedLength<L>) -> (r: Result<
        Partitioned<Affixed<D>, Self>,
        TryPartitionAffixerError<S::Error, D::Error>,
    >) {
        let ghost old_self = self;
        match self.storage.try_partition(selector) {
            Err(e) => {
                let r = Err(TryPartitionAffixerError::Storage(e));
                assert(affixer_partitions(old_self, *selector, r));
                r
            },
            Ok(partition) => {
                let ghost sp = partition;
                let (combined, storage): (D, S) = partition.into();
                let c = combined.clone();
                assert(combined == sp.spec_data());
                assert(storage == sp.spec_storage());
                assert(cloned(combined, c));
                match c.try_partition(&self.suffix_offset) {
                    Err(e) => {
                        assert(cloned(sp.spec_data(), c));
                        assert(old_self.spec_storage().partitions(*selector, Ok(sp)));
                        assert(c.partitions(old_self.spec_suffix_offset(), Err(e)));
                        let r = Err(TryPartitionAffixerError::Data(e));
                        assert(affixer_partitions(old_self, *selector, r));
                        r
                    },
                    Ok(suffix_partition) => {
                        let ghost sfx = suffix_partition;
                        let (prefix_plus_middle, suffix): (D, D) = suffix_partition.into();
                        match prefix_plus_middle.try_partition(&self.prefix_offset) {
                            Err(e) => {
                                assert(cloned(sp.spec_data(), c));
                                assert(c.partitions(self.suffix_offset, Ok(sfx)));
                                assert(old_self.spec_storage().partitions(*selector, Ok(sp)));
                                assert(prefix_plus_middle == sfx.spec_data());
                                assert(sfx.spec_data().partitions(old_self.spec_prefix_offset(), Err(e)));
                                let r = Err(TryPartitionAffixerError::Data(e));
                                assert(affixer_partitions(old_self, *selector, r));
                                r
                            },
                            Ok(middle_partition) => {
                                let ghost mid = middle_partition;
                                let (prefix, middle): (D, D) = middle_partition.into();
                                let r = Partitioned::new(
                                    Affixed { prefix, middle, suffix, combined },
                                    Affixer {
                                        storage,
                                        prefix_offset: self.prefix_offset,
                                        suffix_offset: self.suffix_offset,
                                        combined_length: self.combined_length,
                                    },
                                );
                                assert(cloned(sp.spec_data(), c));
                                assert(old_self.spec_storage().partitions(*selector, Ok(sp)));
                                assert(c.partitions(old_self.spec_suffix_offset(), Ok(sfx)));
                                assert(sfx.spec_data().partitions(old_self.spec_prefix_offset(), Ok(mid)));
                                assert(affixer_partitions(old_self, *selector, Ok(r)));
                                Ok(r)
                            },
                        }
                    },
                }
            },
        }
    }
}

} // verus!
