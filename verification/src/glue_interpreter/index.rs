use vstd::prelude::*;

use crate::glue_interpreter::constructor::nomiddles_to_zp;
use crate::glue_interpreter::storage::{
    children_present, closed_terms, index_path, Storage, StorageKey, Term, TermView,
};

verus! {

/// A list of positions of the sixth kind.
pub struct Index6s {
    indices: Vec<Index6>,
}

impl Index6s {
    pub closed spec fn spec_indices(&self) -> Seq<Index6> {
        self.indices@
    }

    pub fn new(indices: Vec<Index6>) -> (r: Self)
        ensures
            r.spec_indices() == indices@,
    {
        Self { indices }
    }
}

/// A position in a compound: from the start, from the end, or a range in
/// the middle.
pub enum Index6 {
    ZeroPlus(ZeroPlus),
    LenMinus(LenMinus),
    Middle(Middle),
}

impl Index6 {
    pub fn zero_plus(n: usize) -> (r: Self)
        ensures
            r == Index6::ZeroPlus(ZeroPlus(n)),
    {
        Self::ZeroPlus(ZeroPlus(n))
    }

    pub fn len_minus(n: usize) -> (r: Self)
        ensures
            r == Index6::LenMinus(LenMinus(n)),
    {
        Self::LenMinus(LenMinus(n))
    }

    pub fn middle(zero_plus: usize, len_minus: usize) -> (r: Self)
        ensures
            r == Index6::Middle(Middle {
                zero_plus: ZeroPlus(zero_plus),
                len_minus: LenMinus(len_minus),
                current: ZeroPlus(zero_plus),
            }),
    {
        Self::Middle(Middle { zero_plus: ZeroPlus(zero_plus), len_minus: LenMinus(len_minus), current: ZeroPlus(zero_plus) })
    }
}

/// A position counted from the start.
pub struct ZeroPlus(pub usize);

/// A position counted back from the length.
pub struct LenMinus(pub usize);

/// A range of positions, and the position reached in it.
pub struct Middle {
    pub zero_plus: ZeroPlus,
    pub len_minus: LenMinus,
    pub current: ZeroPlus,
}

/// The positions from `starting_at_zero_plus` up to `ending_at_length_minus`
/// back from the end.
#[derive(Clone, Copy, Debug, PartialEq, Eq, Hash)]
pub struct MiddleIndices {
    pub starting_at_zero_plus: usize,
    pub ending_at_length_minus: usize,
}

/// A position in a compound.
#[derive(Clone, Copy, Debug, PartialEq, Eq, Hash)]
pub enum CompoundIndex {
    ZeroPlus(usize),
    LengthMinus(usize),
    Middle(MiddleIndices),
}

/// How many positions a compound of length `len` has from `zp` up to `lm`
/// back from the end: none when `lm` exceeds the length; else the count of
/// `zp ..= len - lm`, and one where that range is empty.
pub open spec fn repetitions(len: nat, zp: usize, lm: usize) -> int {
    if lm > len {
        0
    } else {
        let b = len - lm;
        if b >= zp {
            b - zp + 1
        } else {
            1
        }
    }
}

/// The keys of the compound at `k` in `terms`.
pub open spec fn compound_keys(terms: Map<u64, TermView>, k: u64) -> Seq<StorageKey> {
    match terms[k] {
        TermView::Compound(ks) => ks,
        _ => Seq::empty(),
    }
}

/// The key `k` holds a compound.
pub open spec fn is_compound(terms: Map<u64, TermView>, k: u64) -> bool {
    terms.contains_key(k) && terms[k] is Compound
}

/// Computes the count of [`repetitions`].
fn count_in(length: usize, zp: usize, lm: usize) -> (r: usize)
    requires
        repetitions(length as nat, zp, lm) <= usize::MAX,
    ensures
        r == repetitions(length as nat, zp, lm),
{
    if lm > length {
        0
    } else {
        let a = zp;
        let b = length - lm;
        let d = if b >= a { b - a } else { 0 };
        d + 1
    }
}

impl MiddleIndices {
    pub fn new(starting_at_zero_plus: usize, ending_at_length_minus: usize) -> (r: Self)
        ensures
            r == (MiddleIndices { starting_at_zero_plus, ending_at_length_minus }),
    {
        Self { starting_at_zero_plus, ending_at_length_minus }
    }

    pub fn starting_at_zero_plus(&self) -> (r: usize)
        ensures
            r == self.starting_at_zero_plus,
    {
        self.starting_at_zero_plus
    }

    pub fn ending_at_length_minus(&self) -> (r: usize)
        ensures
            r == self.ending_at_length_minus,
    {
        self.ending_at_length_minus
    }

    /// How many positions of the compound at `k` the range covers.
    pub fn count_repetitions(&self, storage: &Storage, k: StorageKey) -> (r: usize)
        requires
            is_compound(storage.spec_terms(), k@),
            repetitions(
                compound_keys(storage.spec_terms(), k@).len(),
                self.starting_at_zero_plus,
                self.ending_at_length_minus,
            ) <= usize::MAX,
        ensures
            r == repetitions(
                compound_keys(storage.spec_terms(), k@).len(),
                self.starting_at_zero_plus,
                self.ending_at_length_minus,
            ),
    {
        let term = storage.get_compound(k).unwrap();
        let length = term.keys().len();
        count_in(length, self.starting_at_zero_plus(), self.ending_at_length_minus())
    }
}

/// The positions `start ..= end` of `ks` that exist.
pub open spec fn middle_children(ks: Seq<StorageKey>, start: usize, end: usize) -> Seq<StorageKey> {
    if start >= ks.len() || start > end {
        Seq::empty()
    } else {
        let stop: int = if end + 1 < ks.len() { end + 1 } else { ks.len() as int };
        ks.subrange(start as int, stop)
    }
}

/// Each key of `cur` holds a compound in which `index` finds a position.
pub open spec fn lookup_step_ok(terms: Map<u64, TermView>, cur: Seq<StorageKey>, index: CompoundIndex) -> bool {
    forall|i: int| 0 <= i < cur.len() ==> {
        &&& #[trigger] is_compound(terms, cur[i]@)
        &&& match index {
            CompoundIndex::ZeroPlus(zp) => zp < compound_keys(terms, cur[i]@).len(),
            CompoundIndex::LengthMinus(lm) => 1 <= lm <= compound_keys(terms, cur[i]@).len(),
            CompoundIndex::Middle(_) => true,
        }
    }
}

/// The positions `index` picks in the compound of keys `ks`.
pub open spec fn picked(ks: Seq<StorageKey>, index: CompoundIndex) -> Seq<StorageKey> {
    match index {
        CompoundIndex::ZeroPlus(zp) => seq![ks[zp as int]],
        CompoundIndex::LengthMinus(lm) => seq![ks[ks.len() - lm]],
        CompoundIndex::Middle(m) => middle_children(ks, m.starting_at_zero_plus, m.ending_at_length_minus),
    }
}

/// The keys `index` picks in each compound of `cur`, in order.
pub open spec fn lookup_step(terms: Map<u64, TermView>, cur: Seq<StorageKey>, index: CompoundIndex) -> Seq<StorageKey>
    decreases cur.len(),
{
    if cur.len() == 0 {
        Seq::empty()
    } else {
        lookup_step(terms, cur.drop_last(), index) + picked(compound_keys(terms, cur.last()@), index)
    }
}

/// The keys reached from the keys `cur` by the positions `indices` in turn;
/// `None` where a key on the way is not a compound or a position is missing.
pub open spec fn lookup_all(terms: Map<u64, TermView>, cur: Seq<StorageKey>, indices: Seq<CompoundIndex>) -> Option<Seq<StorageKey>>
    decreases indices.len(),
{
    if indices.len() == 0 {
        Some(cur)
    } else if lookup_step_ok(terms, cur, indices[0]) {
        lookup_all(terms, lookup_step(terms, cur, indices[0]), indices.drop_first())
    } else {
        None
    }
}

/// The positions taken from `k`, each index resolved against the compound
/// at hand and each middle range by the next offset; `None` where a term on
/// the way is not a compound, a position is out of range, or the offsets do
/// not match the middle ranges.
pub open spec fn resolve_n(
    terms: Map<u64, TermView>,
    k: u64,
    indices: Seq<CompoundIndex>,
    offsets: Seq<usize>,
) -> Option<Seq<usize>>
    decreases indices.len(),
{
    if indices.len() == 0 {
        if offsets.len() == 0 {
            Some(Seq::empty())
        } else {
            None
        }
    } else if !is_compound(terms, k) {
        None
    } else {
        let ks = compound_keys(terms, k);
        let zp: Option<(int, Seq<usize>)> = match indices[0] {
            CompoundIndex::ZeroPlus(zp) => Some((zp as int, offsets)),
            CompoundIndex::LengthMinus(lm) => if lm <= ks.len() {
                Some((ks.len() - lm, offsets))
            } else {
                None
            },
            CompoundIndex::Middle(m) => if offsets.len() > 0 && m.starting_at_zero_plus + offsets[0] <= usize::MAX {
                Some((m.starting_at_zero_plus + offsets[0], offsets.drop_first()))
            } else {
                None
            },
        };
        match zp {
            Some((z, rest_offsets)) => if z < ks.len() {
                match resolve_n(terms, ks[z]@, indices.drop_first(), rest_offsets) {
                    Some(zs) => Some(seq![z as usize] + zs),
                    None => None,
                }
            } else {
                None
            },
            None => None,
        }
    }
}

/// A position that is not a middle range.
#[derive(Clone, Copy, Debug, PartialEq, Eq, Hash)]
pub enum Nomiddle {
    ZeroPlus(usize),
    LenMinus(usize),
}

/// The positions taken from `k` by the indices `indices`, each resolved
/// against the compound at hand; `None` where a term on the way is not a
/// compound or a position is out of range.
pub open spec fn nomiddle_zps(terms: Map<u64, TermView>, k: u64, indices: Seq<Nomiddle>) -> Option<Seq<usize>>
    decreases indices.len(),
{
    if indices.len() == 0 {
        Some(Seq::empty())
    } else if !is_compound(terms, k) {
        None
    } else {
        let ks = compound_keys(terms, k);
        let z: int = match indices[0] {
            Nomiddle::ZeroPlus(zp) => zp as int,
            Nomiddle::LenMinus(lm) => ks.len() - lm,
        };
        if 0 <= z < ks.len() && z <= usize::MAX {
            match nomiddle_zps(terms, ks[z]@, indices.drop_first()) {
                Some(zs) => Some(seq![z as usize] + zs),
                None => None,
            }
        } else {
            None
        }
    }
}

/// A position list with middle ranges.
#[derive(Clone, Debug, PartialEq, Eq, Hash)]
pub struct TermIndexN {
    compound_indices: Vec<CompoundIndex>,
}

/// What an [`Index4`] holds.
pub type Index4View = (Seq<Nomiddle>, MiddleIndices);

/// What an [`Index5`] holds.
pub enum Index5View {
    WithMiddle(Seq<Index4View>),
    WithoutMiddle(Seq<Nomiddle>),
}

/// The positions gathered since the last middle range, and a group for
/// each middle range with the positions before it.
pub open spec fn index5_groups(indices: Seq<CompoundIndex>) -> (Seq<Nomiddle>, Seq<Index4View>)
    decreases indices.len(),
{
    if indices.len() == 0 {
        (Seq::empty(), Seq::empty())
    } else {
        let (nms, groups) = index5_groups(indices.drop_last());
        match indices.last() {
            CompoundIndex::ZeroPlus(zp) => (nms.push(Nomiddle::ZeroPlus(zp)), groups),
            CompoundIndex::LengthMinus(lm) => (nms.push(Nomiddle::LenMinus(lm)), groups),
            CompoundIndex::Middle(m) => (Seq::empty(), groups.push((nms, m))),
        }
    }
}

/// The positions grouped by middle range; without one, the positions
/// themselves. Positions after the last middle range are dropped.
pub open spec fn to_index5_spec(indices: Seq<CompoundIndex>) -> Index5View {
    let (nms, groups) = index5_groups(indices);
    if groups.len() == 0 {
        Index5View::WithoutMiddle(nms)
    } else {
        Index5View::WithMiddle(groups)
    }
}

impl TermIndexN {
    pub closed spec fn spec_indices(&self) -> Seq<CompoundIndex> {
        self.compound_indices@
    }

    pub fn new(indices: Vec<CompoundIndex>) -> (r: Self)
        ensures
            r.spec_indices() == indices@,
    {
        Self { compound_indices: indices }
    }

    /// Groups the positions by middle range.
    pub fn to_index5(self) -> (r: Index5)
        ensures
            r@ == to_index5_spec(self.spec_indices()),
    {
        let mut nomiddle_stack: Vec<Nomiddle> = Vec::new();
        let mut index4_stack: Vec<Index4> = Vec::new();
        let mut i: usize = 0;
        let n = self.compound_indices.len();
        while i < n
            invariant
                n == self.compound_indices@.len(),
                i <= n,
                (nomiddle_stack@, index4_stack@.map_values(|x: Index4| x@)) == index5_groups(self.compound_indices@.subrange(0, i as int)),
            decreases n - i,
        {
            let ghost pre = self.compound_indices@.subrange(0, i as int);
            assert(self.compound_indices@.subrange(0, i + 1).drop_last() == pre);
            match self.compound_indices[i] {
                CompoundIndex::ZeroPlus(zp) => {
                    nomiddle_stack.push(Nomiddle::ZeroPlus(zp));
                },
                CompoundIndex::LengthMinus(lm) => {
                    nomiddle_stack.push(Nomiddle::LenMinus(lm));
                },
                CompoundIndex::Middle(m) => {
                    let first = nomiddle_stack;
                    nomiddle_stack = Vec::new();
                    let ghost before = index4_stack@;
                    index4_stack.push(Index4 { first, last: m });
                    assert(index4_stack@.map_values(|x: Index4| x@) =~= before.map_values(|x: Index4| x@).push((first@, m)));
                },
            }
            i = i + 1;
        }
        assert(self.compound_indices@.subrange(0, n as int) == self.compound_indices@);
        if index4_stack.len() == 0 {
            Index5::WithoutMiddle(nomiddle_stack)
        } else {
            Index5::WithMiddle(index4_stack)
        }
    }

    pub fn empty() -> (r: Self)
        ensures
            r.spec_indices() == Seq::<CompoundIndex>::empty(),
    {
        Self::new(Vec::new())
    }

    pub fn compound_indices(&self) -> (r: &[CompoundIndex])
        ensures
            r@ == self.spec_indices(),
    {
        self.compound_indices.as_slice()
    }

    /// Resolves the positions from the term at `k`, each middle range by
    /// the next of `offsets`, into positions from the start.
    pub fn into_term_index(&self, storage: &Storage, k: StorageKey, offsets: &[usize]) -> (r: TermIndex)
        requires
            storage.wf(),
            storage.holds(k),
            resolve_n(storage.spec_terms(), k@, self.spec_indices(), offsets@) is Some,
        ensures
            r.spec_indices() == resolve_n(storage.spec_terms(), k@, self.spec_indices(), offsets@)->0,
    {
        let ghost terms = storage.spec_terms();
        let ghost all = self.compound_indices@;
        let mut indices: Vec<usize> = Vec::new();
        let mut k = k;
        let mut next_offset: usize = 0;
        let mut i: usize = 0;
        let ghost k0 = k@;
        let ghost goal = resolve_n(terms, k0, all, offsets@)->0;
        assert(all.skip(0) =~= all);
        assert(offsets@.skip(0) =~= offsets@);
        assert(indices@ + goal =~= goal);
        while i < self.compound_indices.len()
            invariant
                storage.wf(),
                terms == storage.spec_terms(),
                all == self.compound_indices@,
                i <= all.len(),
                next_offset <= offsets@.len(),
                storage.holds(k),
                resolve_n(terms, k0, all, offsets@) == Some(goal),
                resolve_n(terms, k@, all.skip(i as int), offsets@.skip(next_offset as int)) matches Some(zs)
                    && goal == indices@ + zs,
            decreases all.len() - i,
        {
            let ghost rest = all.skip(i as int);
            assert(rest[0] == all[i as int]);
            assert(rest.drop_first() == all.skip(i + 1));
            let keys = storage.get_compound(k).unwrap().keys();
            let zp = match self.compound_indices[i] {
                CompoundIndex::ZeroPlus(zp) => zp,
                CompoundIndex::LengthMinus(lm) => keys.len() - lm,
                CompoundIndex::Middle(m) => {
                    let offset = offsets[next_offset];
                    assert(offsets@.skip(next_offset as int)[0] == offsets@[next_offset as int]);
                    assert(offsets@.skip(next_offset as int).drop_first() == offsets@.skip(next_offset + 1));
                    next_offset = next_offset + 1;
                    m.starting_at_zero_plus() + offset
                },
            };
            proof {
                assert(children_present(terms, terms[k@]));
            }
            k = keys[zp];
            let ghost before = indices@;
            indices.push(zp);
            assert(indices@ == before + seq![zp]);
            i = i + 1;
        }
        proof {
            assert(all.skip(i as int).len() == 0);
        }
        assert(indices@ =~= goal);
        TermIndex::new(indices)
    }

    /// The keys the positions lead to from the term at `k`: each middle
    /// range fans out into the positions of it that exist.
    pub fn lookup(&self, storage: &Storage, k: StorageKey) -> (r: Vec<StorageKey>)
        requires
            storage.wf(),
            storage.holds(k),
            lookup_all(storage.spec_terms(), seq![k], self.spec_indices()) is Some,
        ensures
            r@ == lookup_all(storage.spec_terms(), seq![k], self.spec_indices())->0,
    {
        let ghost terms = storage.spec_terms();
        let ghost all = self.compound_indices@;
        let ghost goal = lookup_all(terms, seq![k], all)->0;
        let mut result: Vec<StorageKey> = Vec::new();
        result.push(k);
        let mut i: usize = 0;
        assert(all.skip(0) =~= all);
        assert(result@ =~= seq![k]);
        while i < self.compound_indices.len()
            invariant
                storage.wf(),
                terms == storage.spec_terms(),
                all == self.compound_indices@,
                i <= all.len(),
                lookup_all(terms, result@, all.skip(i as int)) == Some(goal),
                forall|j: int| 0 <= j < result@.len() ==> terms.contains_key(#[trigger] result@[j]@),
            decreases all.len() - i,
        {
            let ghost rest = all.skip(i as int);
            assert(rest[0] == all[i as int]);
            assert(rest.drop_first() == all.skip(i + 1));
            let index = self.compound_indices[i];
            let next = lookup_step_exec(storage, &result, index);
            result = next;
            i = i + 1;
        }
        proof {
            assert(all.skip(i as int).len() == 0);
        }
        result
    }
}

/// Computes [`lookup_step`], the keys the position picks in each compound.
fn lookup_step_exec(storage: &Storage, cur: &Vec<StorageKey>, index: CompoundIndex) -> (r: Vec<StorageKey>)
    requires
        storage.wf(),
        lookup_step_ok(storage.spec_terms(), cur@, index),
    ensures
        r@ == lookup_step(storage.spec_terms(), cur@, index),
        forall|j: int| 0 <= j < r@.len() ==> storage.spec_terms().contains_key(#[trigger] r@[j]@),
{
    let ghost terms = storage.spec_terms();
    let mut out: Vec<StorageKey> = Vec::new();
    let mut i: usize = 0;
    while i < cur.len()
        invariant
            storage.wf(),
            terms == storage.spec_terms(),
            i <= cur@.len(),
            lookup_step_ok(terms, cur@, index),
            out@ == lookup_step(terms, cur@.subrange(0, i as int), index),
            forall|j: int| 0 <= j < out@.len() ==> terms.contains_key(#[trigger] out@[j]@),
        decreases cur@.len() - i,
    {
        let ghost pre = cur@.subrange(0, i as int);
        assert(cur@.subrange(0, i + 1).drop_last() == pre);
        assert(cur@.subrange(0, i + 1).last() == cur@[i as int]);
        assert(is_compound(terms, cur@[i as int]@));
        let keys = storage.get_compound(cur[i]).unwrap().keys();
        proof {
            assert(children_present(terms, terms[cur@[i as int]@]));
        }
        let ghost before = out@;
        match index {
            CompoundIndex::ZeroPlus(zp) => {
                out.push(keys[zp]);
                assert(out@ == before + picked(keys@, index));
            },
            CompoundIndex::LengthMinus(lm) => {
                out.push(keys[keys.len() - lm]);
                assert(out@ == before + picked(keys@, index));
            },
            CompoundIndex::Middle(m) => {
                let start = m.starting_at_zero_plus();
                let end = m.ending_at_length_minus();
                let stop = if end < keys.len() { end + 1 } else { keys.len() };
                let mut n = start;
                while n < stop
                    invariant
                        stop <= keys@.len(),
                        start <= n,
                        n <= stop || n == start,
                        forall|j: int| 0 <= j < keys@.len() ==> terms.contains_key(#[trigger] keys@[j]@),
                        forall|j: int| 0 <= j < before.len() ==> terms.contains_key(#[trigger] before[j]@),
                        out@ == before + (if n > start { keys@.subrange(start as int, n as int) } else { Seq::empty() }),
                    decreases stop - n,
                {
                    out.push(keys[n]);
                    n = n + 1;
                    assert(keys@.subrange(start as int, n as int) =~= (if n - 1 > start { keys@.subrange(start as int, n - 1) } else { Seq::empty() }).push(keys@[n - 1]));
                }
                assert(out@ =~= before + picked(keys@, index));
            },
        }
        i = i + 1;
    }
    assert(cur@.subrange(0, cur@.len() as int) == cur@);
    out
}

/// A position list from the start followed by one middle range.
#[derive(Debug)]
pub struct TermIndex1 {
    initial: Vec<usize>,
    last: MiddleIndices,
}

impl TermIndex1 {
    pub closed spec fn spec_initial(&self) -> Seq<usize> {
        self.initial@
    }

    pub closed spec fn spec_last(&self) -> MiddleIndices {
        self.last
    }

    pub fn new(initial: Vec<usize>, last: MiddleIndices) -> (r: Self)
        ensures
            r.spec_initial() == initial@,
            r.spec_last() == last,
    {
        Self { initial, last }
    }

    /// How many positions the middle range covers in the compound that the
    /// initial positions lead to from `k`.
    pub fn count_repetitions(&self, storage: &Storage, k: StorageKey) -> (r: usize)
        requires
            storage.wf(),
            storage.holds(k),
            index_path(storage.spec_terms(), k@, self.spec_initial()) matches Some(t)
                && is_compound(storage.spec_terms(), t)
                && repetitions(
                    compound_keys(storage.spec_terms(), t).len(),
                    self.spec_last().starting_at_zero_plus,
                    self.spec_last().ending_at_length_minus,
                ) <= usize::MAX,
        ensures
            ({
                let t = index_path(storage.spec_terms(), k@, self.spec_initial())->0;
                r == repetitions(
                    compound_keys(storage.spec_terms(), t).len(),
                    self.spec_last().starting_at_zero_plus,
                    self.spec_last().ending_at_length_minus,
                )
            }),
    {
        let k = zp_lookup(self.initial.as_slice(), storage, k);
        let term = storage.get_compound(k).unwrap();
        let length = term.keys().len();
        count_in(length, self.last.starting_at_zero_plus(), self.last.ending_at_length_minus())
    }
}

/// A list of positions from the start.
#[derive(Clone, Debug)]
pub struct TermIndex {
    indices: Vec<usize>,
}

impl TermIndex {
    pub closed spec fn spec_indices(&self) -> Seq<usize> {
        self.indices@
    }

    pub fn new(indices: Vec<usize>) -> (r: Self)
        ensures
            r.spec_indices() == indices@,
    {
        Self { indices }
    }

    /// The key the positions lead to from `k`.
    pub fn lookup(&self, storage: &Storage, k: StorageKey) -> (r: StorageKey)
        requires
            storage.wf(),
            storage.holds(k),
            index_path(storage.spec_terms(), k@, self.spec_indices()) is Some,
        ensures
            r@ == index_path(storage.spec_terms(), k@, self.spec_indices())->0,
    {
        zp_lookup(self.indices.as_slice(), storage, k)
    }
}

/// A list of positions without middle ranges.
#[derive(Debug)]
pub struct NomiddleIndex {
    indices: Vec<Nomiddle>,
}

/// A copy of the positions.
pub fn copy_nomiddles(v: &[Nomiddle]) -> (r: Vec<Nomiddle>)
    ensures
        r@ == v@,
{
    let mut out: Vec<Nomiddle> = Vec::new();
    let mut i: usize = 0;
    while i < v.len()
        invariant
            i <= v@.len(),
            out@ == v@.subrange(0, i as int),
        decreases v@.len() - i,
    {
        out.push(v[i]);
        i = i + 1;
    }
    assert(v@.subrange(0, v@.len() as int) == v@);
    out
}

impl Clone for NomiddleIndex {
    fn clone(&self) -> (r: Self)
        ensures
            r.spec_indices() == self.spec_indices(),
    {
        NomiddleIndex { indices: copy_nomiddles(self.indices.as_slice()) }
    }
}

/// Following positions gives the same positions in a grown store.
pub proof fn lemma_nomiddle_zps_grows(small: Map<u64, TermView>, big: Map<u64, TermView>, k: u64, indices: Seq<Nomiddle>)
    requires
        small.submap_of(big),
        closed_terms(small),
        small.contains_key(k),
    ensures
        nomiddle_zps(big, k, indices) == nomiddle_zps(small, k, indices),
    decreases indices.len(),
{
    if indices.len() > 0 {
        assert(big.contains_key(k));
        assert(big[k] == small[k]);
        if is_compound(small, k) {
            let ks = compound_keys(small, k);
            let z: int = match indices[0] {
                Nomiddle::ZeroPlus(zp) => zp as int,
                Nomiddle::LenMinus(lm) => ks.len() - lm,
            };
            if 0 <= z < ks.len() {
                assert(children_present(small, small[k]));
                assert(small.contains_key(ks[z]@));
                lemma_nomiddle_zps_grows(small, big, ks[z]@, indices.drop_first());
            }
        }
    }
}

/// The key reached from `k` by taking, for each index in `indices` in
/// turn, that element of the compound at hand.
pub fn zp_lookup(indices: &[usize], storage: &Storage, k: StorageKey) -> (r: StorageKey)
    requires
        storage.wf(),
        storage.holds(k),
        index_path(storage.spec_terms(), k@, indices@) is Some,
    ensures
        r@ == index_path(storage.spec_terms(), k@, indices@)->0,
        storage.holds(r),
{
    let ghost terms = storage.spec_terms();
    let ghost k0 = k;
    let mut k = k;
    let mut i: usize = 0;
    assert(indices@.skip(0) =~= indices@);
    while i < indices.len()
        invariant
            storage.wf(),
            terms == storage.spec_terms(),
            i <= indices@.len(),
            storage.holds(k),
            index_path(terms, k@, indices@.skip(i as int)) == index_path(terms, k0@, indices@),
            index_path(terms, k0@, indices@) is Some,
        decreases indices@.len() - i,
    {
        assert(indices@.skip(i as int).drop_first() == indices@.skip(i + 1));
        assert(indices@.skip(i as int)[0] == indices@[i as int]);
        let keys = storage.get_compound(k).unwrap().keys();
        assert(storage.spec_terms().contains_key(keys@[indices@[i as int] as int]@)) by {
            assert(children_present(terms, terms[k@]));
        }
        k = keys[indices[i]];
        i = i + 1;
    }
    assert(indices@.skip(indices@.len() as int).len() == 0);
    k
}

/// Following resolved positions leads where following the positions does.
pub proof fn lemma_nomiddle_path(terms: Map<u64, TermView>, k: u64, indices: Seq<Nomiddle>)
    requires
        nomiddle_zps(terms, k, indices) is Some,
    ensures
        index_path(terms, k, nomiddle_zps(terms, k, indices)->0) is Some,
    decreases indices.len(),
{
    if indices.len() > 0 {
        let ks = compound_keys(terms, k);
        let z: int = match indices[0] {
            Nomiddle::ZeroPlus(zp) => zp as int,
            Nomiddle::LenMinus(lm) => ks.len() - lm,
        };
        let rest = nomiddle_zps(terms, ks[z]@, indices.drop_first());
        assert(rest is Some);
        lemma_nomiddle_path(terms, ks[z]@, indices.drop_first());
        let zs = seq![z as usize] + rest->0;
        assert(zs == nomiddle_zps(terms, k, indices)->0);
        assert(zs.drop_first() =~= rest->0);
        assert(zs[0] == z);
    }
}

impl NomiddleIndex {
    pub closed spec fn spec_indices(&self) -> Seq<Nomiddle> {
        self.indices@
    }

    pub fn new(indices: Vec<Nomiddle>) -> (r: Self)
        ensures
            r.spec_indices() == indices@,
    {
        Self { indices }
    }

    /// The key the positions lead to from `k`.
    pub fn lookup(self, storage: &Storage, k: StorageKey) -> (r: StorageKey)
        requires
            storage.wf(),
            storage.holds(k),
            nomiddle_zps(storage.spec_terms(), k@, self.spec_indices()) is Some,
        ensures
            r@ == index_path(storage.spec_terms(), k@, nomiddle_zps(storage.spec_terms(), k@, self.spec_indices())->0)->0,
    {
        let zps = nomiddles_to_zp(self.indices.as_slice(), storage, k);
        proof {
            lemma_nomiddle_path(storage.spec_terms(), k@, self.indices@);
        }
        zp_lookup(zps.as_slice(), storage, k)
    }

    /// The key the positions lead to from the term that `offsets` lead to
    /// from `k`.
    pub fn lookup2(self, storage: &Storage, k: StorageKey, offsets: &[usize]) -> (r: StorageKey)
        requires
            storage.wf(),
            storage.holds(k),
            index_path(storage.spec_terms(), k@, offsets@) matches Some(t)
                && nomiddle_zps(storage.spec_terms(), t, self.spec_indices()) is Some,
        ensures
            ({
                let t = index_path(storage.spec_terms(), k@, offsets@)->0;
                r@ == index_path(storage.spec_terms(), t, nomiddle_zps(storage.spec_terms(), t, self.spec_indices())->0)->0
            }),
    {
        let k = zp_lookup(offsets, storage, k);
        self.lookup(storage, k)
    }

    /// The positions from the start that the positions resolve to, from
    /// the term that `offsets` lead to from `k`.
    pub fn to_zp(self, storage: &Storage, k: StorageKey, offsets: &[usize]) -> (r: Vec<usize>)
        requires
            storage.wf(),
            storage.holds(k),
            index_path(storage.spec_terms(), k@, offsets@) matches Some(t)
                && nomiddle_zps(storage.spec_terms(), t, self.spec_indices()) is Some,
        ensures
            ({
                let t = index_path(storage.spec_terms(), k@, offsets@)->0;
                r@ == nomiddle_zps(storage.spec_terms(), t, self.spec_indices())->0
            }),
    {
        let k = zp_lookup(offsets, storage, k);
        nomiddles_to_zp(self.indices.as_slice(), storage, k)
    }
}

/// Positions before a middle range, and the range.
#[derive(Debug)]
pub struct Index4 {
    pub first: Vec<Nomiddle>,
    pub last: MiddleIndices,
}

impl View for Index4 {
    type V = Index4View;

    open spec fn view(&self) -> Index4View {
        (self.first@, self.last)
    }
}

impl Clone for Index4 {
    fn clone(&self) -> (r: Self)
        ensures
            r@ == self@,
    {
        Index4 { first: copy_nomiddles(self.first.as_slice()), last: self.last }
    }
}

impl Index4 {
    pub fn new(first: Vec<Nomiddle>, last: MiddleIndices) -> (r: Self)
        ensures
            r@ == (first@, last),
    {
        Self { first, last }
    }
}

/// Positions grouped by middle range, or positions without one.
#[derive(Debug)]
pub enum Index5 {
    WithMiddle(Vec<Index4>),
    WithoutMiddle(Vec<Nomiddle>),
}

impl View for Index5 {
    type V = Index5View;

    open spec fn view(&self) -> Index5View {
        match self {
            Index5::WithMiddle(m) => Index5View::WithMiddle(m@.map_values(|x: Index4| x@)),
            Index5::WithoutMiddle(m) => Index5View::WithoutMiddle(m@),
        }
    }
}

/// The offsets as positions from the start.
pub open spec fn zero_plus_all(offsets: Seq<usize>) -> Seq<Nomiddle> {
    offsets.map_values(|o: usize| Nomiddle::ZeroPlus(o))
}

/// Builds the positions of [`zero_plus_all`] followed by `tail`.
fn zero_plus_then(offsets: &[usize], tail: &Vec<Nomiddle>) -> (r: Vec<Nomiddle>)
    ensures
        r@ == zero_plus_all(offsets@) + tail@,
{
    let mut out: Vec<Nomiddle> = Vec::new();
    let mut i: usize = 0;
    while i < offsets.len()
        invariant
            i <= offsets@.len(),
            out@ == zero_plus_all(offsets@.subrange(0, i as int)),
        decreases offsets@.len() - i,
    {
        out.push(Nomiddle::ZeroPlus(offsets[i]));
        i = i + 1;
        assert(zero_plus_all(offsets@.subrange(0, i as int)) =~= zero_plus_all(offsets@.subrange(0, i - 1)).push(Nomiddle::ZeroPlus(offsets@[i - 1])));
    }
    let mut j: usize = 0;
    let ghost head = out@;
    assert(offsets@.subrange(0, i as int) == offsets@);
    while j < tail.len()
        invariant
            j <= tail@.len(),
            head == zero_plus_all(offsets@),
            out@ == head + tail@.subrange(0, j as int),
        decreases tail@.len() - j,
    {
        out.push(tail[j]);
        j = j + 1;
        assert(head + tail@.subrange(0, j as int) =~= (head + tail@.subrange(0, j - 1)).push(tail@[j - 1]));
    }
    assert(tail@.subrange(0, j as int) == tail@);
    out
}

impl Clone for Index5 {
    fn clone(&self) -> (r: Self)
        ensures
            r@ == self@,
    {
        match self {
            Index5::WithMiddle(m) => {
                let mut out: Vec<Index4> = Vec::new();
                let mut i: usize = 0;
                while i < m.len()
                    invariant
                        i <= m@.len(),
                        out@.map_values(|x: Index4| x@) == m@.subrange(0, i as int).map_values(|x: Index4| x@),
                    decreases m@.len() - i,
                {
                    let ghost before = out@;
                    out.push(m[i].clone());
                    i = i + 1;
                    assert(out@.map_values(|x: Index4| x@) =~= before.map_values(|x: Index4| x@).push(m@[i - 1]@));
                    assert(m@.subrange(0, i as int).map_values(|x: Index4| x@) =~= m@.subrange(0, i - 1).map_values(|x: Index4| x@).push(m@[i - 1]@));
                }
                assert(m@.subrange(0, m@.len() as int) == m@);
                Index5::WithMiddle(out)
            },
            Index5::WithoutMiddle(m) => Index5::WithoutMiddle(copy_nomiddles(m.as_slice())),
        }
    }
}

impl Index5 {
    pub fn new_with_middle(indices: Vec<Index4>) -> (r: Self)
        ensures
            r@ == Index5View::WithMiddle(indices@.map_values(|x: Index4| x@)),
    {
        Self::WithMiddle(indices)
    }

    pub fn new_without_middle(indices: Vec<Nomiddle>) -> (r: Self)
        ensures
            r@ == Index5View::WithoutMiddle(indices@),
    {
        Self::WithoutMiddle(indices)
    }

    pub fn empty() -> (r: Self)
        ensures
            r@ == Index5View::WithoutMiddle(Seq::empty()),
    {
        Self::new_without_middle(Vec::new())
    }

    /// Puts the offsets, as positions from the start, in front: before the
    /// first group's positions, or before the positions. A value with no
    /// group becomes the offsets alone.
    pub fn prepend(&mut self, offsets: &[usize])
        ensures
            final(self)@ == match old(self)@ {
                Index5View::WithMiddle(m) => if m.len() > 0 {
                    Index5View::WithMiddle(m.update(0, (zero_plus_all(offsets@) + m[0].0, m[0].1)))
                } else {
                    Index5View::WithoutMiddle(zero_plus_all(offsets@))
                },
                Index5View::WithoutMiddle(m) => Index5View::WithoutMiddle(zero_plus_all(offsets@) + m),
            },
    {
        let mut current = Index5::empty();
        std::mem::swap(&mut current, self);
        let empty_tail: Vec<Nomiddle> = Vec::new();
        let next = match current {
            Index5::WithMiddle(m) => {
                if m.len() > 0 {
                    let f = zero_plus_then(offsets, &m[0].first);
                    let last = m[0].last;
                    let mut m = m;
                    let ghost before = m@;
                    m.set(0, Index4 { first: f, last });
                    assert(m@.map_values(|x: Index4| x@) =~= before.map_values(|x: Index4| x@).update(
                        0,
                        (zero_plus_all(offsets@) + before[0].first@, before[0].last),
                    ));
                    Index5::WithMiddle(m)
                } else {
                    let f = zero_plus_then(offsets, &empty_tail);
                    assert(f@ =~= zero_plus_all(offsets@));
                    Index5::WithoutMiddle(f)
                }
            },
            Index5::WithoutMiddle(m) => Index5::WithoutMiddle(zero_plus_then(offsets, &m)),
        };
        *self = next;
    }
}

} // verus!
