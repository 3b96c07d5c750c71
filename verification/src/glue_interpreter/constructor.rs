use vstd::prelude::*;

use crate::glue_interpreter::compound::Compound;
use crate::glue_interpreter::index::{
    compound_keys, copy_nomiddles, is_compound, lemma_nomiddle_path, lemma_nomiddle_zps_grows,
    nomiddle_zps, repetitions, zero_plus_all, zp_lookup, Index4, Index4View, Index5, Index5View,
    Nomiddle, NomiddleIndex,
};
use crate::glue_interpreter::storage::{
    children_present, closed_terms, index_path, lemma_index_path_grows, Storage, StorageKey, Term,
    TermView,
};
use crate::glue_interpreter::symbol::Symbol;

verus! {

/// Builds a term out of parts of another.
#[derive(Debug)]
pub enum SingleConstructor {
    /// The part of the source term that positions lead to.
    Copy(NomiddleIndex),
    /// A new symbol.
    Symbol(String),
    /// A new compound of the elements, each repeated over its ranges.
    Compound(Vec<CompoundElement>),
}

/// An element of a compound constructor: a constructor, run once for each
/// combination of positions in the middle ranges of `dot_dotted_indices`.
#[derive(Debug)]
pub struct CompoundElement {
    pub single_constructor: SingleConstructor,
    pub dot_dotted_indices: Index5,
}

/// What a constructor builds: a key of the source, a new symbol, or a new
/// compound.
pub enum CVal {
    Key(u64),
    Atom(Seq<char>),
    Built(Seq<CVal>),
}

/// The key `k` stands, in `terms`, for what `v` says.
pub open spec fn cdenotes(terms: Map<u64, TermView>, k: u64, v: CVal) -> bool
    decreases v,
{
    match v {
        CVal::Key(t) => k == t,
        CVal::Atom(s) => terms.contains_key(k) && terms[k] == TermView::Symbol(s),
        CVal::Built(vs) => terms.contains_key(k) && match terms[k] {
            TermView::Compound(ks) => ks.len() == vs.len() && forall|i: int|
                0 <= i < vs.len() ==> cdenotes(terms, #[trigger] ks[i]@, vs[i]),
            _ => false,
        },
    }
}

/// How many new terms building `v` stores.
pub open spec fn cval_size(v: CVal) -> nat
    decreases v, 1nat,
{
    match v {
        CVal::Key(_) => 0,
        CVal::Atom(_) => 1,
        CVal::Built(vs) => 1 + cvals_size(vs),
    }
}

/// How many new terms building each of `vs` stores.
pub open spec fn cvals_size(vs: Seq<CVal>) -> nat
    decreases vs, 0nat,
{
    if vs.len() == 0 {
        0
    } else {
        cvals_size(vs.drop_last()) + cval_size(vs.last())
    }
}

pub proof fn lemma_cvals_size_append(a: Seq<CVal>, b: Seq<CVal>)
    ensures
        cvals_size(a + b) == cvals_size(a) + cvals_size(b),
    decreases b.len(),
{
    if b.len() == 0 {
        assert(a + b =~= a);
    } else {
        lemma_cvals_size_append(a, b.drop_last());
        assert((a + b).drop_last() =~= a + b.drop_last());
        assert((a + b).last() == b.last());
    }
}

/// What a key stands for stays so when terms are added.
pub proof fn lemma_cdenotes_grows(small: Map<u64, TermView>, big: Map<u64, TermView>, k: u64, v: CVal)
    requires
        small.submap_of(big),
        cdenotes(small, k, v),
    ensures
        cdenotes(big, k, v),
    decreases v,
{
    match v {
        CVal::Key(_) => {},
        CVal::Atom(_) => {
            assert(big.contains_key(k) && big[k] == small[k]);
        },
        CVal::Built(vs) => {
            assert(big.contains_key(k) && big[k] == small[k]);
            if let TermView::Compound(ks) = small[k] {
                assert forall|i: int| 0 <= i < vs.len() implies cdenotes(big, #[trigger] ks[i]@, vs[i]) by {
                    lemma_cdenotes_grows(small, big, ks[i]@, vs[i]);
                }
            }
        },
    }
}

/// The positions from the start that each list of positions resolves to
/// from `k`; `None` where one does not resolve.
pub open spec fn all_zps(terms: Map<u64, TermView>, k: u64, elems: Seq<Seq<Nomiddle>>) -> Option<Seq<Seq<usize>>>
    decreases elems.len(),
{
    if elems.len() == 0 {
        Some(Seq::empty())
    } else {
        match (all_zps(terms, k, elems.drop_last()), nomiddle_zps(terms, k, elems.last())) {
            (Some(zss), Some(zs)) => Some(zss.push(zs)),
            _ => None,
        }
    }
}

/// Each list of positions in `elems`, followed by the positions before a
/// middle range and then by each position of that range in turn.
pub open spec fn expand_group(terms: Map<u64, TermView>, k: u64, elems: Seq<Seq<Nomiddle>>, g: Index4View) -> Option<Seq<Seq<Nomiddle>>>
    decreases elems.len(),
{
    if elems.len() == 0 {
        Some(Seq::empty())
    } else {
        let nms = elems.last() + g.0;
        let start = g.1.starting_at_zero_plus;
        match (expand_group(terms, k, elems.drop_last(), g), nomiddle_zps(terms, k, nms)) {
            (Some(done), Some(zs)) => match index_path(terms, k, zs) {
                Some(t) => if is_compound(terms, t) {
                    let reps = repetitions(compound_keys(terms, t).len(), start, g.1.ending_at_length_minus);
                    if reps <= usize::MAX && start + reps <= usize::MAX + 1 {
                        Some(done + Seq::new(reps as nat, |n: int| nms.push(Nomiddle::ZeroPlus((start + n) as usize))))
                    } else {
                        None
                    }
                } else {
                    None
                },
                None => None,
            },
            _ => None,
        }
    }
}

/// The lists of positions the middle ranges of `groups` fan out into from
/// `elems`.
pub open spec fn expand_groups(terms: Map<u64, TermView>, k: u64, elems: Seq<Seq<Nomiddle>>, groups: Seq<Index4View>) -> Option<Seq<Seq<Nomiddle>>>
    decreases groups.len(),
{
    if groups.len() == 0 {
        Some(elems)
    } else {
        match expand_group(terms, k, elems, groups[0]) {
            Some(e2) => expand_groups(terms, k, e2, groups.drop_first()),
            None => None,
        }
    }
}

/// The positions from the start at which an element with the positions
/// `idx` is built, one list for each time it is built.
pub open spec fn element_offsets(terms: Map<u64, TermView>, k: u64, idx: Index5View) -> Option<Seq<Seq<usize>>> {
    match idx {
        Index5View::WithoutMiddle(nms) => match nomiddle_zps(terms, k, nms) {
            Some(zs) => Some(seq![zs]),
            None => None,
        },
        Index5View::WithMiddle(groups) => match expand_groups(terms, k, seq![Seq::empty()], groups) {
            Some(elems) => all_zps(terms, k, elems),
            None => None,
        },
    }
}

/// The positions with `offsets` put in front, as [`Index5::prepend`] does.
pub open spec fn prepend_spec(idx: Index5View, offsets: Seq<usize>) -> Index5View {
    match idx {
        Index5View::WithMiddle(m) => if m.len() > 0 {
            Index5View::WithMiddle(m.update(0, (zero_plus_all(offsets) + m[0].0, m[0].1)))
        } else {
            Index5View::WithoutMiddle(zero_plus_all(offsets))
        },
        Index5View::WithoutMiddle(m) => Index5View::WithoutMiddle(zero_plus_all(offsets) + m),
    }
}

/// What `sc` builds from the term at `k`, the positions `offsets` leading
/// to the part at hand; `None` where a position does not resolve.
pub open spec fn construct_val(terms: Map<u64, TermView>, k: u64, sc: SingleConstructor, offsets: Seq<usize>) -> Option<CVal>
    decreases sc, 0nat,
{
    match sc {
        SingleConstructor::Symbol(s) => Some(CVal::Atom(s@)),
        SingleConstructor::Copy(c) => match index_path(terms, k, offsets) {
            Some(t) => match nomiddle_zps(terms, t, c.spec_indices()) {
                Some(zs) => match index_path(terms, t, zs) {
                    Some(r) => Some(CVal::Key(r)),
                    None => None,
                },
                None => None,
            },
            None => None,
        },
        SingleConstructor::Compound(elems) => match elements_vals(terms, k, elems@, offsets) {
            Some(vs) => Some(CVal::Built(vs)),
            None => None,
        },
    }
}

/// How deep compound constructors nest in `sc`.
pub open spec fn sc_height(sc: SingleConstructor) -> nat
    decreases sc, 0nat,
{
    match sc {
        SingleConstructor::Compound(elems) => elems_height(elems@),
        _ => 0,
    }
}

/// One more than the deepest nesting among the elements' constructors.
pub open spec fn elems_height(elems: Seq<CompoundElement>) -> nat
    decreases elems, 0nat,
{
    if elems.len() == 0 {
        0
    } else {
        let a = elems_height(elems.drop_last());
        let b = sc_height(elems.last().single_constructor) + 1;
        if a > b {
            a
        } else {
            b
        }
    }
}

proof fn lemma_elems_height(elems: Seq<CompoundElement>, i: int)
    requires
        0 <= i < elems.len(),
    ensures
        sc_height(elems[i].single_constructor) < elems_height(elems),
    decreases elems.len(),
{
    if i < elems.len() - 1 {
        lemma_elems_height(elems.drop_last(), i);
        assert(elems.drop_last()[i] == elems[i]);
    }
}

/// What the elements `elems` build, in order.
pub open spec fn elements_vals(terms: Map<u64, TermView>, k: u64, elems: Seq<CompoundElement>, offsets: Seq<usize>) -> Option<Seq<CVal>>
    decreases elems, 0nat,
{
    if elems.len() == 0 {
        Some(Seq::empty())
    } else {
        match (elements_vals(terms, k, elems.drop_last(), offsets), element_vals(terms, k, elems.last(), offsets)) {
            (Some(a), Some(b)) => Some(a + b),
            _ => None,
        }
    }
}

/// What the element `e` builds: its constructor at each of its positions.
pub open spec fn element_vals(terms: Map<u64, TermView>, k: u64, e: CompoundElement, offsets: Seq<usize>) -> Option<Seq<CVal>>
    decreases e, 0nat,
{
    match element_offsets(terms, k, prepend_spec(e.dot_dotted_indices@, offsets)) {
        Some(offs) => each_val(terms, k, e.single_constructor, offs),
        None => None,
    }
}

/// What `sc` builds at each of the positions `offs`.
pub open spec fn each_val(terms: Map<u64, TermView>, k: u64, sc: SingleConstructor, offs: Seq<Seq<usize>>) -> Option<Seq<CVal>>
    decreases sc, offs.len() + 1,
{
    if offs.len() == 0 {
        Some(Seq::empty())
    } else {
        match (each_val(terms, k, sc, offs.drop_last()), construct_val(terms, k, sc, offs.last())) {
            (Some(a), Some(v)) => Some(a.push(v)),
            _ => None,
        }
    }
}

/// Resolves the positions `nomiddles` from `k` to positions from the start,
/// walking down as it goes.
pub fn nomiddles_to_zp(nomiddles: &[Nomiddle], storage: &Storage, k: StorageKey) -> (r: Vec<usize>)
    requires
        storage.wf(),
        storage.holds(k),
        nomiddle_zps(storage.spec_terms(), k@, nomiddles@) is Some,
    ensures
        r@ == nomiddle_zps(storage.spec_terms(), k@, nomiddles@)->0,
{
    let ghost terms = storage.spec_terms();
    let ghost goal = nomiddle_zps(terms, k@, nomiddles@)->0;
    let mut zps: Vec<usize> = Vec::new();
    let mut k = k;
    let mut i: usize = 0;
    assert(nomiddles@.skip(0) =~= nomiddles@);
    while i < nomiddles.len()
        invariant
            storage.wf(),
            terms == storage.spec_terms(),
            i <= nomiddles@.len(),
            storage.holds(k),
            nomiddle_zps(terms, k@, nomiddles@.skip(i as int)) matches Some(zs) && goal == zps@ + zs,
        decreases nomiddles@.len() - i,
    {
        let ghost rest = nomiddles@.skip(i as int);
        assert(rest[0] == nomiddles@[i as int]);
        assert(rest.drop_first() == nomiddles@.skip(i + 1));
        let keys = storage.get_compound(k).unwrap().keys();
        let zp = match nomiddles[i] {
            Nomiddle::ZeroPlus(zp) => zp,
            Nomiddle::LenMinus(lm) => keys.len() - lm,
        };
        proof {
            assert(children_present(terms, terms[k@]));
        }
        k = keys[zp];
        let ghost before = zps@;
        zps.push(zp);
        assert(zps@ == before + seq![zp]);
        i = i + 1;
    }
    assert(nomiddles@.skip(i as int).len() == 0);
    assert(zps@ =~= goal);
    zps
}

/// The lists of positions, each by its view.
pub open spec fn nested_nm(v: Seq<Vec<Nomiddle>>) -> Seq<Seq<Nomiddle>> {
    v.map_values(|x: Vec<Nomiddle>| x@)
}

/// The lists of positions from the start, each by its view.
pub open spec fn nested_us(v: Seq<Vec<usize>>) -> Seq<Seq<usize>> {
    v.map_values(|x: Vec<usize>| x@)
}

proof fn lemma_expand_group_prefix(terms: Map<u64, TermView>, k: u64, elems: Seq<Seq<Nomiddle>>, g: Index4View, i: int)
    requires
        expand_group(terms, k, elems, g) is Some,
        0 <= i <= elems.len(),
    ensures
        expand_group(terms, k, elems.take(i), g) is Some,
    decreases elems.len() - i,
{
    if i == elems.len() {
        assert(elems.take(i) =~= elems);
    } else {
        lemma_expand_group_prefix(terms, k, elems, g, i + 1);
        assert(elems.take(i + 1).drop_last() =~= elems.take(i));
    }
}

proof fn lemma_all_zps_prefix(terms: Map<u64, TermView>, k: u64, elems: Seq<Seq<Nomiddle>>, i: int)
    requires
        all_zps(terms, k, elems) is Some,
        0 <= i <= elems.len(),
    ensures
        all_zps(terms, k, elems.take(i)) is Some,
    decreases elems.len() - i,
{
    if i == elems.len() {
        assert(elems.take(i) =~= elems);
    } else {
        lemma_all_zps_prefix(terms, k, elems, i + 1);
        assert(elems.take(i + 1).drop_last() =~= elems.take(i));
    }
}

proof fn lemma_each_val_prefix(terms: Map<u64, TermView>, k: u64, sc: SingleConstructor, offs: Seq<Seq<usize>>, i: int)
    requires
        each_val(terms, k, sc, offs) is Some,
        0 <= i <= offs.len(),
    ensures
        each_val(terms, k, sc, offs.take(i)) is Some,
    decreases offs.len() - i,
{
    if i == offs.len() {
        assert(offs.take(i) =~= offs);
    } else {
        lemma_each_val_prefix(terms, k, sc, offs, i + 1);
        assert(offs.take(i + 1).drop_last() =~= offs.take(i));
    }
}

proof fn lemma_elements_vals_prefix(terms: Map<u64, TermView>, k: u64, elems: Seq<CompoundElement>, offsets: Seq<usize>, i: int)
    requires
        elements_vals(terms, k, elems, offsets) is Some,
        0 <= i <= elems.len(),
    ensures
        elements_vals(terms, k, elems.take(i), offsets) is Some,
    decreases elems.len() - i,
{
    if i == elems.len() {
        assert(elems.take(i) =~= elems);
    } else {
        lemma_elements_vals_prefix(terms, k, elems, offsets, i + 1);
        assert(elems.take(i + 1).drop_last() =~= elems.take(i));
    }
}

/// The two lists of positions, one after the other.
fn concat_nomiddles(a: &[Nomiddle], b: &[Nomiddle]) -> (r: Vec<Nomiddle>)
    ensures
        r@ == a@ + b@,
{
    let mut out = copy_nomiddles(a);
    let mut j: usize = 0;
    while j < b.len()
        invariant
            j <= b@.len(),
            out@ == a@ + b@.subrange(0, j as int),
        decreases b@.len() - j,
    {
        out.push(b[j]);
        j = j + 1;
        assert(a@ + b@.subrange(0, j as int) =~= (a@ + b@.subrange(0, j - 1)).push(b@[j - 1]));
    }
    assert(b@.subrange(0, b@.len() as int) == b@);
    out
}

/// Computes [`expand_group`] on the store as it was, `terms0`.
fn expand_group_exec(
    elems: &Vec<Vec<Nomiddle>>,
    g: &Index4,
    storage: &Storage,
    k: StorageKey,
    Ghost(terms0): Ghost<Map<u64, TermView>>,
) -> (r: Vec<Vec<Nomiddle>>)
    requires
        storage.wf(),
        closed_terms(terms0),
        terms0.contains_key(k@),
        terms0.submap_of(storage.spec_terms()),
        expand_group(terms0, k@, nested_nm(elems@), g@) is Some,
    ensures
        nested_nm(r@) == expand_group(terms0, k@, nested_nm(elems@), g@)->0,
{
    let ghost cur = storage.spec_terms();
    let ghost all = nested_nm(elems@);
    let mut out: Vec<Vec<Nomiddle>> = Vec::new();
    let mut i: usize = 0;
    assert(all.take(0) =~= Seq::<Seq<Nomiddle>>::empty());
    assert(nested_nm(out@) =~= Seq::<Seq<Nomiddle>>::empty());
    while i < elems.len()
        invariant
            storage.wf(),
            cur == storage.spec_terms(),
            closed_terms(terms0),
            terms0.contains_key(k@),
            terms0.submap_of(cur),
            all == nested_nm(elems@),
            i <= elems@.len(),
            expand_group(terms0, k@, all, g@) is Some,
            expand_group(terms0, k@, all.take(i as int), g@) == Some(nested_nm(out@)),
        decreases elems@.len() - i,
    {
        proof {
            lemma_expand_group_prefix(terms0, k@, all, g@, i + 1);
            assert(all.take(i + 1).drop_last() =~= all.take(i as int));
            assert(all.take(i + 1).last() == elems@[i as int]@);
        }
        let nms = concat_nomiddles(elems[i].as_slice(), g.first.as_slice());
        proof {
            lemma_nomiddle_zps_grows(terms0, cur, k@, nms@);
        }
        let zs = nomiddles_to_zp(nms.as_slice(), storage, k);
        proof {
            lemma_index_path_grows(terms0, cur, k@, zs@);
        }
        let t = zp_lookup(zs.as_slice(), storage, k);
        proof {
            assert(cur.contains_key(t@) && cur[t@] == terms0[t@]);
        }
        let reps = g.last.count_repetitions(storage, t);
        let start = g.last.starting_at_zero_plus();
        let ghost before = nested_nm(out@);
        let ghost fan = Seq::new(reps as nat, |n: int| nms@.push(Nomiddle::ZeroPlus((start + n) as usize)));
        let mut n: usize = 0;
        while n < reps
            invariant
                n <= reps,
                start + reps <= usize::MAX + 1,
                fan == Seq::new(reps as nat, |m: int| nms@.push(Nomiddle::ZeroPlus((start + m) as usize))),
                nested_nm(out@) == before + fan.take(n as int),
            decreases reps - n,
        {
            let mut v = copy_nomiddles(nms.as_slice());
            v.push(Nomiddle::ZeroPlus(start + n));
            let ghost prev = out@;
            out.push(v);
            n = n + 1;
            assert(nested_nm(out@) =~= nested_nm(prev).push(v@));
            assert(before + fan.take(n as int) =~= (before + fan.take(n - 1)).push(fan[n - 1]));
        }
        assert(fan.take(reps as int) =~= fan);
        i = i + 1;
    }
    assert(all.take(elems@.len() as int) =~= all);
    out
}

/// Computes [`element_offsets`] on the store as it was, `terms0`.
fn element_offsets_exec(
    idx: &Index5,
    storage: &Storage,
    k: StorageKey,
    Ghost(terms0): Ghost<Map<u64, TermView>>,
) -> (r: Vec<Vec<usize>>)
    requires
        storage.wf(),
        closed_terms(terms0),
        terms0.contains_key(k@),
        terms0.submap_of(storage.spec_terms()),
        element_offsets(terms0, k@, idx@) is Some,
    ensures
        nested_us(r@) == element_offsets(terms0, k@, idx@)->0,
{
    let ghost cur = storage.spec_terms();
    match idx {
        Index5::WithoutMiddle(nms) => {
            proof {
                lemma_nomiddle_zps_grows(terms0, cur, k@, nms@);
            }
            let zs = nomiddles_to_zp(nms.as_slice(), storage, k);
            let mut out: Vec<Vec<usize>> = Vec::new();
            out.push(zs);
            assert(nested_us(out@) =~= seq![zs@]);
            out
        },
        Index5::WithMiddle(groups) => {
            let ghost gs = groups@.map_values(|x: Index4| x@);
            let mut elems: Vec<Vec<Nomiddle>> = Vec::new();
            elems.push(Vec::new());
            assert(nested_nm(elems@) =~= seq![Seq::<Nomiddle>::empty()]);
            let mut j: usize = 0;
            assert(gs.skip(0) =~= gs);
            while j < groups.len()
                invariant
                    storage.wf(),
                    cur == storage.spec_terms(),
                    closed_terms(terms0),
                    terms0.contains_key(k@),
                    terms0.submap_of(cur),
                    gs == groups@.map_values(|x: Index4| x@),
                    j <= groups@.len(),
                    expand_groups(terms0, k@, nested_nm(elems@), gs.skip(j as int))
                        == expand_groups(terms0, k@, seq![Seq::<Nomiddle>::empty()], gs),
                    expand_groups(terms0, k@, seq![Seq::<Nomiddle>::empty()], gs) matches Some(fin)
                        && all_zps(terms0, k@, fin) is Some,
                decreases groups@.len() - j,
            {
                assert(gs.skip(j as int)[0] == groups@[j as int]@);
                assert(gs.skip(j as int).drop_first() =~= gs.skip(j + 1));
                let next = expand_group_exec(&elems, &groups[j], storage, k, Ghost(terms0));
                elems = next;
                j = j + 1;
            }
            assert(gs.skip(j as int).len() == 0);
            let ghost fin = nested_nm(elems@);
            let mut out: Vec<Vec<usize>> = Vec::new();
            let mut i: usize = 0;
            assert(nested_us(out@) =~= Seq::<Seq<usize>>::empty());
            assert(fin.take(0) =~= Seq::<Seq<Nomiddle>>::empty());
            while i < elems.len()
                invariant
                    storage.wf(),
                    cur == storage.spec_terms(),
                    closed_terms(terms0),
                    terms0.contains_key(k@),
                    terms0.submap_of(cur),
                    fin == nested_nm(elems@),
                    i <= elems@.len(),
                    all_zps(terms0, k@, fin) is Some,
                    all_zps(terms0, k@, fin.take(i as int)) == Some(nested_us(out@)),
                decreases elems@.len() - i,
            {
                proof {
                    lemma_all_zps_prefix(terms0, k@, fin, i + 1);
                    assert(fin.take(i + 1).drop_last() =~= fin.take(i as int));
                    assert(fin.take(i + 1).last() == elems@[i as int]@);
                    lemma_nomiddle_zps_grows(terms0, cur, k@, elems@[i as int]@);
                }
                let zs = nomiddles_to_zp(elems[i].as_slice(), storage, k);
                let ghost prev = out@;
                out.push(zs);
                assert(nested_us(out@) =~= nested_us(prev).push(zs@));
                i = i + 1;
            }
            assert(fin.take(elems@.len() as int) =~= fin);
            out
        },
    }
}

proof fn lemma_elements_vals_size(terms: Map<u64, TermView>, k: u64, elems: Seq<CompoundElement>, offsets: Seq<usize>, i: int)
    requires
        elements_vals(terms, k, elems, offsets) is Some,
        0 <= i <= elems.len(),
    ensures
        elements_vals(terms, k, elems.take(i), offsets) is Some,
        cvals_size(elements_vals(terms, k, elems.take(i), offsets)->0) <= cvals_size(elements_vals(terms, k, elems, offsets)->0),
    decreases elems.len() - i,
{
    if i == elems.len() {
        assert(elems.take(i) =~= elems);
    } else {
        lemma_elements_vals_size(terms, k, elems, offsets, i + 1);
        let t1 = elems.take(i + 1);
        assert(t1.drop_last() =~= elems.take(i));
        let a = elements_vals(terms, k, elems.take(i), offsets)->0;
        let b = element_vals(terms, k, t1.last(), offsets)->0;
        lemma_cvals_size_append(a, b);
    }
}

proof fn lemma_each_val_size(terms: Map<u64, TermView>, k: u64, sc: SingleConstructor, offs: Seq<Seq<usize>>, i: int)
    requires
        each_val(terms, k, sc, offs) is Some,
        0 <= i <= offs.len(),
    ensures
        each_val(terms, k, sc, offs.take(i)) is Some,
        cvals_size(each_val(terms, k, sc, offs.take(i))->0) <= cvals_size(each_val(terms, k, sc, offs)->0),
    decreases offs.len() - i,
{
    if i == offs.len() {
        assert(offs.take(i) =~= offs);
    } else {
        lemma_each_val_size(terms, k, sc, offs, i + 1);
        let t1 = offs.take(i + 1);
        assert(t1.drop_last() =~= offs.take(i));
        let a = each_val(terms, k, sc, offs.take(i))->0;
        let v = construct_val(terms, k, sc, t1.last())->0;
        assert(a.push(v).drop_last() =~= a);
    }
}

impl SingleConstructor {
    /// Builds what the constructor makes of the part of the term at `k`
    /// that `offsets` lead to; `terms0` is the store before building began.
    fn build(&self, storage: &mut Storage, k: StorageKey, offsets: &Vec<usize>, Ghost(terms0): Ghost<Map<u64, TermView>>) -> (r: StorageKey)
        requires
            old(storage).wf(),
            closed_terms(terms0),
            terms0.contains_key(k@),
            terms0.submap_of(old(storage).spec_terms()),
            construct_val(terms0, k@, *self, offsets@) is Some,
            old(storage).has_room(cval_size(construct_val(terms0, k@, *self, offsets@)->0)),
        ensures
            final(storage).wf(),
            old(storage).spec_terms().submap_of(final(storage).spec_terms()),
            final(storage).spec_terms().len() == old(storage).spec_terms().len() + cval_size(construct_val(terms0, k@, *self, offsets@)->0),
            final(storage).spec_terms().contains_key(r@),
            cdenotes(final(storage).spec_terms(), r@, construct_val(terms0, k@, *self, offsets@)->0),
            final(storage).spec_fixed() == old(storage).spec_fixed(),
            final(storage).spec_rules() == old(storage).spec_rules(),
        decreases sc_height(*self), 1nat,
    {
        let ghost cur = storage.spec_terms();
        match self {
            SingleConstructor::Symbol(s) => {
                let r = storage.insert(Term::Symbol(Symbol::new(s.clone())));
                r
            },
            SingleConstructor::Copy(c) => {
                proof {
                    lemma_index_path_grows(terms0, cur, k@, offsets@);
                }
                let t = zp_lookup(offsets.as_slice(), storage, k);
                proof {
                    let zs = nomiddle_zps(terms0, t@, c.spec_indices())->0;
                    lemma_nomiddle_zps_grows(terms0, cur, t@, c.spec_indices());
                    lemma_index_path_grows(terms0, cur, t@, zs);
                }
                let r = c.clone().lookup(storage, t);
                proof {
                    assert(cur.contains_key(r@));
                }
                r
            },
            SingleConstructor::Compound(elems) => {
                let ghost all = elements_vals(terms0, k@, elems@, offsets@)->0;
                let ghost start_len = cur.len();
                let mut keys: Vec<StorageKey> = Vec::new();
                let ghost mut vals: Seq<CVal> = Seq::empty();
                let mut i: usize = 0;
                assert(elems@.take(0) =~= Seq::<CompoundElement>::empty());
                assert(sc_height(*self) == elems_height(elems@));
                while i < elems.len()
                    invariant
                        sc_height(*self) == elems_height(elems@),
                        storage.wf(),
                        closed_terms(terms0),
                        terms0.contains_key(k@),
                        terms0.submap_of(storage.spec_terms()),
                        cur.submap_of(storage.spec_terms()),
                        cur == old(storage).spec_terms(),
                        start_len == cur.len(),
                        i <= elems@.len(),
                        elements_vals(terms0, k@, elems@, offsets@) == Some(all),
                        start_len + cvals_size(all) + 2 < u32::MAX,
                        elements_vals(terms0, k@, elems@.take(i as int), offsets@) == Some(vals),
                        storage.spec_terms().len() == start_len + cvals_size(vals),
                        keys@.len() == vals.len(),
                        forall|j: int| 0 <= j < keys@.len() ==> storage.spec_terms().contains_key(#[trigger] keys@[j]@),
                        forall|j: int| 0 <= j < keys@.len() ==> cdenotes(storage.spec_terms(), #[trigger] keys@[j]@, vals[j]),
                        storage.spec_fixed() == old(storage).spec_fixed(),
                        storage.spec_rules() == old(storage).spec_rules(),
                    decreases elems@.len() - i,
                {
                    proof {
                        lemma_elements_vals_size(terms0, k@, elems@, offsets@, i + 1);
                        assert(elems@.take(i + 1).drop_last() =~= elems@.take(i as int));
                        assert(elems@.take(i + 1).last() == elems@[i as int]);
                        lemma_cvals_size_append(vals, element_vals(terms0, k@, elems@[i as int], offsets@)->0);
                    }
                    let ghost before = storage.spec_terms();
                    let ghost ev = element_vals(terms0, k@, elems@[i as int], offsets@)->0;
                    proof {
                        lemma_elems_height(elems@, i as int);
                    }
                    let ks = build_element(&elems[i], storage, k, offsets, Ghost(terms0));
                    let ghost after = storage.spec_terms();
                    proof {
                        assert forall|x: u64| #[trigger] terms0.contains_key(x) implies after.contains_key(x) && after[x] == terms0[x] by {
                            assert(before.contains_key(x));
                        }
                        assert forall|x: u64| #[trigger] cur.contains_key(x) implies after.contains_key(x) && after[x] == cur[x] by {
                            assert(before.contains_key(x));
                        }
                    }
                    let ghost prev_keys = keys@;
                    let mut j: usize = 0;
                    while j < ks.len()
                        invariant
                            j <= ks@.len(),
                            ks@.len() == ev.len(),
                            keys@ == prev_keys + ks@.subrange(0, j as int),
                            prev_keys.len() == vals.len(),
                        decreases ks@.len() - j,
                    {
                        keys.push(ks[j]);
                        j = j + 1;
                        assert(prev_keys + ks@.subrange(0, j as int) =~= (prev_keys + ks@.subrange(0, j - 1)).push(ks@[j - 1]));
                    }
                    assert(ks@.subrange(0, ks@.len() as int) == ks@);
                    proof {
                        assert forall|m: int| 0 <= m < keys@.len() implies after.contains_key(#[trigger] keys@[m]@)
                            && cdenotes(after, keys@[m]@, (vals + ev)[m]) by {
                            if m < prev_keys.len() {
                                assert(keys@[m] == prev_keys[m]);
                                assert(before.contains_key(prev_keys[m]@));
                                assert(cdenotes(before, prev_keys[m]@, vals[m]));
                                lemma_cdenotes_grows(before, after, prev_keys[m]@, vals[m]);
                            } else {
                                assert(keys@[m] == ks@[m - prev_keys.len()]);
                            }
                        }
                        vals = vals + ev;
                    }
                    i = i + 1;
                }
                assert(elems@.take(elems@.len() as int) =~= elems@);
                let ghost before = storage.spec_terms();
                let ghost kv = keys@;
                let r = storage.insert(Term::Compound(Compound::new(keys)));
                proof {
                    let after = storage.spec_terms();
                    assert forall|m: int| 0 <= m < all.len() implies cdenotes(after, #[trigger] kv[m]@, all[m]) by {
                        lemma_cdenotes_grows(before, after, kv[m]@, all[m]);
                    }
                }
                r
            },
        }
    }
}

/// Builds, at each position of `e`, what its constructor makes; the keys
/// come in order.
fn build_element(e: &CompoundElement, storage: &mut Storage, k: StorageKey, offsets: &Vec<usize>, Ghost(terms0): Ghost<Map<u64, TermView>>) -> (r: Vec<StorageKey>)
    requires
        old(storage).wf(),
        closed_terms(terms0),
        terms0.contains_key(k@),
        terms0.submap_of(old(storage).spec_terms()),
        element_vals(terms0, k@, *e, offsets@) is Some,
        old(storage).has_room(cvals_size(element_vals(terms0, k@, *e, offsets@)->0)),
    ensures
        final(storage).wf(),
        old(storage).spec_terms().submap_of(final(storage).spec_terms()),
        final(storage).spec_terms().len() == old(storage).spec_terms().len() + cvals_size(element_vals(terms0, k@, *e, offsets@)->0),
        r@.len() == element_vals(terms0, k@, *e, offsets@)->0.len(),
        forall|j: int| 0 <= j < r@.len() ==> final(storage).spec_terms().contains_key(#[trigger] r@[j]@),
        forall|j: int| 0 <= j < r@.len() ==> cdenotes(final(storage).spec_terms(), #[trigger] r@[j]@, element_vals(terms0, k@, *e, offsets@)->0[j]),
        final(storage).spec_fixed() == old(storage).spec_fixed(),
        final(storage).spec_rules() == old(storage).spec_rules(),
    decreases sc_height(e.single_constructor), 2nat,
{
    let ghost cur = storage.spec_terms();
    let ghost all = element_vals(terms0, k@, *e, offsets@)->0;
    let mut idx = e.dot_dotted_indices.clone();
    idx.prepend(offsets.as_slice());
    let offs = element_offsets_exec(&idx, storage, k, Ghost(terms0));
    let ghost offv = nested_us(offs@);
    let mut out: Vec<StorageKey> = Vec::new();
    let ghost mut vals: Seq<CVal> = Seq::empty();
    let mut j: usize = 0;
    assert(offv.take(0) =~= Seq::<Seq<usize>>::empty());
    while j < offs.len()
        invariant
            storage.wf(),
            closed_terms(terms0),
            terms0.contains_key(k@),
            terms0.submap_of(storage.spec_terms()),
            cur.submap_of(storage.spec_terms()),
            cur == old(storage).spec_terms(),
            offv == nested_us(offs@),
            j <= offs@.len(),
            each_val(terms0, k@, e.single_constructor, offv) == Some(all),
            cur.len() + cvals_size(all) + 1 < u32::MAX,
            each_val(terms0, k@, e.single_constructor, offv.take(j as int)) == Some(vals),
            storage.spec_terms().len() == cur.len() + cvals_size(vals),
            out@.len() == vals.len(),
            forall|m: int| 0 <= m < out@.len() ==> storage.spec_terms().contains_key(#[trigger] out@[m]@),
            forall|m: int| 0 <= m < out@.len() ==> cdenotes(storage.spec_terms(), #[trigger] out@[m]@, vals[m]),
            storage.spec_fixed() == old(storage).spec_fixed(),
            storage.spec_rules() == old(storage).spec_rules(),
        decreases offs@.len() - j,
    {
        proof {
            lemma_each_val_size(terms0, k@, e.single_constructor, offv, j + 1);
            assert(offv.take(j + 1).drop_last() =~= offv.take(j as int));
            assert(offv.take(j + 1).last() == offs@[j as int]@);
        }
        let ghost before = storage.spec_terms();
        let ghost v = construct_val(terms0, k@, e.single_constructor, offs@[j as int]@)->0;
        proof {
            assert(vals.push(v).drop_last() =~= vals);
            assert(vals.push(v).last() == v);
            assert(each_val(terms0, k@, e.single_constructor, offv.take(j + 1)) == Some(vals.push(v)));
        }
        let key = e.single_constructor.build(storage, k, &offs[j], Ghost(terms0));
        let ghost after = storage.spec_terms();
        proof {
            assert forall|x: u64| #[trigger] terms0.contains_key(x) implies after.contains_key(x) && after[x] == terms0[x] by {
                assert(before.contains_key(x));
            }
            assert forall|x: u64| #[trigger] cur.contains_key(x) implies after.contains_key(x) && after[x] == cur[x] by {
                assert(before.contains_key(x));
            }
        }
        let ghost prev = out@;
        out.push(key);
        proof {
            assert(vals.push(v).drop_last() =~= vals);
            assert forall|m: int| 0 <= m < out@.len() implies after.contains_key(#[trigger] out@[m]@)
                && cdenotes(after, out@[m]@, vals.push(v)[m]) by {
                if m < prev.len() {
                    assert(out@[m] == prev[m]);
                    assert(before.contains_key(prev[m]@));
                    assert(cdenotes(before, prev[m]@, vals[m]));
                    lemma_cdenotes_grows(before, after, prev[m]@, vals[m]);
                }
            }
            vals = vals.push(v);
        }
        j = j + 1;
    }
    assert(offv.take(offs@.len() as int) =~= offv);
    out
}

impl SingleConstructor {
    /// Builds what the constructor makes of the term at `k` and puts it in
    /// the place of that term.
    pub fn construct(&self, storage: &mut Storage, k: StorageKey)
        requires
            old(storage).wf(),
            old(storage).holds(k),
            construct_val(old(storage).spec_terms(), k@, *self, Seq::empty()) is Some,
            old(storage).has_room(cval_size(construct_val(old(storage).spec_terms(), k@, *self, Seq::empty())->0)),
        ensures
            final(storage).wf(),
            exists|mid: Map<u64, TermView>, r: u64| {
                &&& old(storage).spec_terms().submap_of(mid)
                &&& mid.contains_key(r)
                &&& #[trigger] cdenotes(mid, r, construct_val(old(storage).spec_terms(), k@, *self, Seq::empty())->0)
                &&& final(storage).spec_terms() == mid.insert(k@, mid[r])
            },
            final(storage).spec_fixed() == old(storage).spec_fixed(),
            final(storage).spec_rules() == old(storage).spec_rules(),
    {
        let ghost terms0 = storage.spec_terms();
        let offsets: Vec<usize> = Vec::new();
        assert(offsets@ =~= Seq::<usize>::empty());
        let r = self.build(storage, k, &offsets, Ghost(terms0));
        let ghost mid = storage.spec_terms();
        let t = storage.get(r).unwrap().clone();
        proof {
            assert(children_present(mid, mid[r@]));
        }
        storage.replace(k, t);
        assert(cdenotes(mid, r@, construct_val(terms0, k@, *self, Seq::empty())->0));
    }
}

} // verus!
