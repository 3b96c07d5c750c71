use vstd::prelude::*;

use crate::glue_interpreter::compound::Compound;
use crate::glue_interpreter::constructor::{cdenotes, cval_size, cvals_size, lemma_cdenotes_grows, lemma_cvals_size_append, CVal};
use crate::glue_interpreter::storage::{is_plain, plain_depth, Storage, StorageKey, Term, TermView};

verus! {

/// A rewriting rule.
#[derive(Clone, Copy, Hash, PartialEq, Eq, Structural, Debug)]
pub struct Rule {}

/// What a pattern variable was bound to: one term, or one binding for each
/// repetition of a `..` pattern.
#[derive(Hash, PartialEq, Eq, Debug)]
pub enum Match {
    Leaf(StorageKey),
    Branches(Vec<Match>),
}

/// A [`Match`] with keys by number.
pub enum MatchV {
    Leaf(u64),
    Branches(Seq<MatchV>),
}

/// The view of a match.
pub open spec fn mview(m: Match) -> MatchV
    decreases m, 1nat,
{
    match m {
        Match::Leaf(k) => MatchV::Leaf(k@),
        Match::Branches(ms) => MatchV::Branches(mviews(ms@)),
    }
}

/// The views of the matches, in order.
pub open spec fn mviews(ms: Seq<Match>) -> Seq<MatchV>
    decreases ms, 0nat,
{
    if ms.len() == 0 {
        Seq::empty()
    } else {
        mviews(ms.drop_last()).push(mview(ms.last()))
    }
}

proof fn lemma_mviews(ms: Seq<Match>)
    ensures
        mviews(ms).len() == ms.len(),
        forall|i: int| 0 <= i < ms.len() ==> #[trigger] mviews(ms)[i] == mview(ms[i]),
    decreases ms.len(),
{
    if ms.len() > 0 {
        lemma_mviews(ms.drop_last());
        assert forall|i: int| 0 <= i < ms.len() implies #[trigger] mviews(ms)[i] == mview(ms[i]) by {
            if i < ms.len() - 1 {
                assert(ms.drop_last()[i] == ms[i]);
            }
        }
    }
}

impl View for Match {
    type V = MatchV;

    open spec fn view(&self) -> MatchV {
        mview(*self)
    }
}

/// A copy of the matches.
fn clone_matches(ms: &Vec<Match>) -> (r: Vec<Match>)
    ensures
        mviews(r@) == mviews(ms@),
    decreases ms@,
{
    let mut out: Vec<Match> = Vec::new();
    let mut i: usize = 0;
    while i < ms.len()
        invariant
            i <= ms@.len(),
            mviews(out@) == mviews(ms@.take(i as int)),
        decreases ms@.len() - i,
    {
        proof {
            assert(decreases_to!(ms@ => ms@[i as int]));
        }
        let m = clone_match(&ms[i]);
        let ghost before = out@;
        out.push(m);
        proof {
            assert(out@.drop_last() =~= before);
            assert(ms@.take(i + 1).drop_last() =~= ms@.take(i as int));
            assert(ms@.take(i + 1).last() == ms@[i as int]);
        }
        i = i + 1;
    }
    assert(ms@.take(ms@.len() as int) =~= ms@);
    out
}

/// A copy of the match.
fn clone_match(m: &Match) -> (r: Match)
    ensures
        r@ == m@,
    decreases *m,
{
    match m {
        Match::Leaf(k) => Match::Leaf(*k),
        Match::Branches(ms) => Match::Branches(clone_matches(ms)),
    }
}

impl Clone for Match {
    fn clone(&self) -> (r: Self)
        ensures
            r@ == self@,
    {
        clone_match(self)
    }
}

/// Variable names bound to matches, each name once.
#[derive(Debug)]
pub struct Bindings {
    entries: Vec<(String, Match)>,
}

/// No name occurs twice among `es`.
pub open spec fn names_unique(es: Seq<(String, Match)>) -> bool {
    forall|i: int, j: int| 0 <= i < j < es.len() ==> es[i].0@ != es[j].0@
}

/// The position of the entry for `name`, if any.
pub open spec fn position_of(es: Seq<(String, Match)>, name: Seq<char>) -> int {
    choose|i: int| 0 <= i < es.len() && es[i].0@ == name
}

/// The names of `es` with their matches.
pub open spec fn bview(es: Seq<(String, Match)>) -> Map<Seq<char>, MatchV> {
    Map::new(
        |name: Seq<char>| exists|i: int| 0 <= i < es.len() && es[i].0@ == name,
        |name: Seq<char>| mview(es[position_of(es, name)].1),
    )
}

impl View for Bindings {
    type V = Map<Seq<char>, MatchV>;

    open spec fn view(&self) -> Map<Seq<char>, MatchV> {
        bview(self.spec_entries())
    }
}

impl Bindings {
    pub closed spec fn spec_entries(&self) -> Seq<(String, Match)> {
        self.entries@
    }

    #[verifier::type_invariant]
    closed spec fn inv(&self) -> bool {
        names_unique(self.entries@)
    }

    /// No bindings.
    pub fn new() -> (r: Self)
        ensures
            r@ == Map::<Seq<char>, MatchV>::empty(),
    {
        let r = Bindings { entries: Vec::new() };
        assert(r@ =~= Map::<Seq<char>, MatchV>::empty());
        r
    }

    /// How many names are bound.
    pub fn len(&self) -> (r: usize)
        ensures
            r == self.spec_entries().len(),
    {
        self.entries.len()
    }

    /// The `i`-th binding, by position among the entries.
    pub fn entry(&self, i: usize) -> (r: (&String, &Match))
        requires
            i < self.spec_entries().len(),
        ensures
            *r.0 == self.spec_entries()[i as int].0,
            *r.1 == self.spec_entries()[i as int].1,
            self@.contains_key(r.0@),
            self@[r.0@] == r.1@,
    {
        proof {
            use_type_invariant(self);
            self.lemma_view_at(i as int);
        }
        (&self.entries[i].0, &self.entries[i].1)
    }

    proof fn lemma_view_at(&self, i: int)
        requires
            names_unique(self.entries@),
            0 <= i < self.entries@.len(),
        ensures
            self@.contains_key(self.entries@[i].0@),
            self@[self.entries@[i].0@] == mview(self.entries@[i].1),
            position_of(self.entries@, self.entries@[i].0@) == i,
    {
        let es = self.entries@;
        assert(exists|j: int| 0 <= j < es.len() && es[j].0@ == es[i].0@);
        let p = position_of(es, es[i].0@);
        assert(p == i);
    }

    /// Every name of the view has an entry.
    pub proof fn lemma_dom(&self, name: Seq<char>)
        requires
            self@.contains_key(name),
        ensures
            exists|i: int| 0 <= i < self.spec_entries().len() && (#[trigger] self.spec_entries()[i]).0@ == name,
    {
    }

    /// The match bound to `name`.
    pub fn get(&self, name: &String) -> (r: Option<&Match>)
        ensures
            r is Some == self@.contains_key(name@),
            r matches Some(m) ==> m@ == self@[name@],
    {
        proof {
            use_type_invariant(self);
        }
        let mut i: usize = 0;
        while i < self.entries.len()
            invariant
                names_unique(self.entries@),
                i <= self.entries@.len(),
                forall|j: int| 0 <= j < i ==> (#[trigger] self.entries@[j]).0@ != name@,
            decreases self.entries@.len() - i,
        {
            if self.entries[i].0.eq(name) {
                proof {
                    self.lemma_view_at(i as int);
                }
                return Some(&self.entries[i].1);
            }
            i = i + 1;
        }
        None
    }

    /// Binds `name` to `m`, in place of any match it had.
    pub fn insert(&mut self, name: String, m: Match)
        ensures
            final(self)@ == old(self)@.insert(name@, m@),
    {
        proof {
            use_type_invariant(&*self);
        }
        let ghost old_es = self.entries@;
        let ghost nv = name@;
        let ghost mv = m@;
        let mut i: usize = 0;
        while i < self.entries.len()
            invariant
                self.entries@ == old_es,
                nv == name@,
                names_unique(old_es),
                i <= old_es.len(),
                forall|j: int| 0 <= j < i ==> (#[trigger] old_es[j]).0@ != nv,
            ensures
                i <= old_es.len(),
                forall|j: int| 0 <= j < i ==> (#[trigger] old_es[j]).0@ != nv,
                i < old_es.len() ==> old_es[i as int].0@ == nv,
            decreases old_es.len() - i,
        {
            let same = self.entries[i].0.eq(&name);
            if same {
                break;
            }
            i = i + 1;
        }
        let ghost pos = i;
        let mut entries = Vec::new();
        std::mem::swap(&mut entries, &mut self.entries);
        if i < entries.len() {
            entries.set(i, (name, m));
        } else {
            entries.push((name, m));
        }
        let ghost new_es = entries@;
        proof {
            assert forall|a: int, b: int| 0 <= a < b < new_es.len() implies new_es[a].0@ != new_es[b].0@ by {
                if a == pos as int {
                } else if b == pos as int {
                } else {
                    assert(new_es[a] == old_es[a] && new_es[b] == old_es[b]);
                }
            }
            let v1 = bview(new_es);
            let v0 = bview(old_es).insert(nv, mv);
            assert forall|x: Seq<char>| v1.contains_key(x) <==> v0.contains_key(x) by {
                if v0.contains_key(x) && x != nv {
                    let j = choose|j: int| 0 <= j < old_es.len() && old_es[j].0@ == x;
                    assert(new_es[j] == old_es[j]);
                }
                if x == nv {
                    assert(new_es[pos as int].0@ == nv);
                }
                if v1.contains_key(x) && x != nv {
                    let j = choose|j: int| 0 <= j < new_es.len() && new_es[j].0@ == x;
                    assert(j != pos);
                    assert(old_es[j] == new_es[j]);
                }
            }
            assert forall|x: Seq<char>| v1.contains_key(x) implies v1[x] == v0[x] by {
                if x == nv {
                    assert(new_es[pos as int].0@ == nv);
                    assert(position_of(new_es, x) == pos);
                } else {
                    let j = choose|j: int| 0 <= j < new_es.len() && new_es[j].0@ == x;
                    assert(j != pos);
                    assert(old_es[j] == new_es[j]);
                    assert(position_of(new_es, x) == j);
                    assert(position_of(old_es, x) == j);
                }
            }
            assert(v1 =~= v0);
        }
        self.entries = entries;
    }

    /// Adds the bindings of `other`, which win over those of the same names.
    pub fn extend(&mut self, other: Bindings)
        ensures
            final(self)@ == old(self)@.union_prefer_right(other@),
    {
        proof {
            use_type_invariant(&other);
        }
        let ghost ov = other@;
        let mut other = other;
        let ghost target = self@.union_prefer_right(ov);
        let ghost mut rest = other.entries@;
        let mut es = Vec::new();
        std::mem::swap(&mut es, &mut other.entries);
        let mut i: usize = 0;
        let n = es.len();
        while i < n
            invariant
                n == es@.len(),
                i <= n,
                names_unique(es@),
                ov == bview(es@),
                self@ == old(self)@.union_prefer_right(bview(es@.take(i as int))),
            decreases n - i,
        {
            let (name, m) = clone_entry(&es[i]);
            let ghost before = self@;
            self.insert(name, m);
            proof {
                let t = es@.take(i + 1);
                let t0 = es@.take(i as int);
                assert forall|x: Seq<char>| #[trigger] bview(t).contains_key(x) <==> bview(t0).insert(es@[i as int].0@, mview(es@[i as int].1)).contains_key(x) by {
                    if bview(t).contains_key(x) {
                        let j = choose|j: int| 0 <= j < t.len() && t[j].0@ == x;
                        if j < i {
                            assert(t0[j] == t[j]);
                        }
                    }
                    if bview(t0).contains_key(x) {
                        let j = choose|j: int| 0 <= j < t0.len() && t0[j].0@ == x;
                        assert(t[j] == t0[j]);
                    }
                    assert(t[i as int] == es@[i as int]);
                }
                assert forall|x: Seq<char>| #[trigger] bview(t).contains_key(x) implies bview(t)[x] == bview(t0).insert(es@[i as int].0@, mview(es@[i as int].1))[x] by {
                    let j = choose|j: int| 0 <= j < t.len() && t[j].0@ == x;
                    assert(position_of(t, x) == j);
                    if j < i {
                        assert(t0[j] == t[j]);
                        assert(x != es@[i as int].0@);
                        assert(position_of(t0, x) == j);
                    } else {
                        assert(t[j] == es@[i as int]);
                    }
                }
                assert(bview(t) =~= bview(t0).insert(es@[i as int].0@, mview(es@[i as int].1)));
                assert(self@ =~= old(self)@.union_prefer_right(bview(t)));
            }
            i = i + 1;
        }
        assert(es@.take(n as int) =~= es@);
    }
}

/// A copy of the binding.
fn clone_entry(e: &(String, Match)) -> (r: (String, Match))
    ensures
        r.0@ == e.0@,
        r.1@ == e.1@,
{
    (e.0.clone(), clone_match(&e.1))
}

/// A pattern for one term.
#[derive(Hash, PartialEq, Eq, Debug)]
pub enum SinglePattern {
    /// A compound whose elements match the pattern inside.
    Compound(Box<MultiPattern>),
    /// Any term, bound to the variable.
    Variable(String),
    /// The symbol.
    Symbol(String),
}

/// A pattern for the elements of a compound.
#[derive(Hash, PartialEq, Eq, Debug)]
pub enum MultiPattern {
    /// No elements.
    Nothing,
    /// One element, then the rest.
    One(Box<One>),
    /// As many elements as match, then the rest.
    Many(Box<Many>),
}

/// An element followed by the pattern for the rest.
#[derive(Hash, PartialEq, Eq, Debug)]
pub struct One {
    pub sp: SinglePattern,
    pub mp: MultiPattern,
}

/// A repeated element followed by the pattern for the rest.
#[derive(Hash, PartialEq, Eq, Debug)]
pub struct Many {
    pub sp: SinglePattern,
    pub mp: MultiPattern,
}

/// How deep the pattern nests.
pub open spec fn sp_height(p: SinglePattern) -> nat
    decreases p, 0nat,
{
    match p {
        SinglePattern::Compound(b) => mp_height(*b) + 1,
        _ => 0,
    }
}

/// How deep the pattern nests.
pub open spec fn mp_height(p: MultiPattern) -> nat
    decreases p, 0nat,
{
    match p {
        MultiPattern::Nothing => 0,
        MultiPattern::One(o) => {
            let a = sp_height(o.sp);
            let b = mp_height(o.mp);
            (if a > b { a } else { b }) + 1
        },
        MultiPattern::Many(m) => {
            let a = sp_height(m.sp);
            let b = mp_height(m.mp);
            (if a > b { a } else { b }) + 1
        },
    }
}

/// The bindings of a match of the term at `k` against `p`; `None` where
/// it does not match.
pub open spec fn pm_single(terms: Map<u64, TermView>, p: SinglePattern, k: u64) -> Option<Map<Seq<char>, MatchV>>
    decreases p, 0nat,
{
    match p {
        SinglePattern::Variable(v) => Some(Map::empty().insert(v@, MatchV::Leaf(k))),
        SinglePattern::Symbol(s) => if terms[k] == TermView::Symbol(s@) {
            Some(Map::empty())
        } else {
            None
        },
        SinglePattern::Compound(mp) => match terms[k] {
            TermView::Compound(ks) => pm_multi(terms, *mp, ks),
            _ => None,
        },
    }
}

/// The bindings of a match of the terms at `ks` against `p`; `None` where
/// they do not match. A repeated element takes as many terms as match it.
pub open spec fn pm_multi(terms: Map<u64, TermView>, p: MultiPattern, ks: Seq<StorageKey>) -> Option<Map<Seq<char>, MatchV>>
    decreases p, 0nat,
{
    match p {
        MultiPattern::Nothing => if ks.len() == 0 {
            Some(Map::empty())
        } else {
            None
        },
        MultiPattern::One(o) => if ks.len() == 0 {
            None
        } else {
            match (pm_single(terms, o.sp, ks[0]@), pm_multi(terms, o.mp, ks.drop_first())) {
                (Some(a), Some(b)) => Some(a.union_prefer_right(b)),
                _ => None,
            }
        },
        MultiPattern::Many(m) => {
            let ms = sp_prefix(terms, m.sp, ks);
            match pm_multi(terms, m.mp, ks.skip(ms.len() as int)) {
                Some(b) => Some(combine(ms).union_prefer_right(b)),
                None => None,
            }
        },
    }
}

/// The bindings of the terms at the start of `ks` that match `sp`, up to
/// the first that does not.
pub open spec fn sp_prefix(terms: Map<u64, TermView>, sp: SinglePattern, ks: Seq<StorageKey>) -> Seq<Map<Seq<char>, MatchV>>
    decreases sp, ks.len() + 1,
{
    if ks.len() == 0 {
        Seq::empty()
    } else {
        match pm_single(terms, sp, ks[0]@) {
            Some(m) => seq![m] + sp_prefix(terms, sp, ks.drop_first()),
            None => Seq::empty(),
        }
    }
}

/// How many terms a pattern without repetitions takes: one for each of its
/// elements; `None` for a pattern with a repetition.
pub open spec fn fixed_len(p: MultiPattern) -> Option<nat>
    decreases p,
{
    match p {
        MultiPattern::Nothing => Some(0),
        MultiPattern::One(o) => match fixed_len(o.mp) {
            Some(n) => Some(n + 1),
            None => None,
        },
        MultiPattern::Many(_) => None,
    }
}

/// How many terms a pattern takes at least: one for each element that is
/// not repeated.
pub open spec fn min_len(p: MultiPattern) -> nat
    decreases p,
{
    match p {
        MultiPattern::Nothing => 0,
        MultiPattern::One(o) => 1 + min_len(o.mp),
        MultiPattern::Many(m) => min_len(m.mp),
    }
}

proof fn lemma_sp_prefix_len(terms: Map<u64, TermView>, sp: SinglePattern, ks: Seq<StorageKey>)
    ensures
        sp_prefix(terms, sp, ks).len() <= ks.len(),
    decreases ks.len(),
{
    if ks.len() > 0 {
        lemma_sp_prefix_len(terms, sp, ks.drop_first());
    }
}

/// A match uses up every term: a pattern with no elements left matches
/// only no terms, a successful match has at least one term for each
/// element that is not repeated, and a pattern without repetitions matches
/// only exactly as many terms as it has elements, so a term left over makes
/// the match fail.
pub proof fn lemma_match_takes_all_terms(terms: Map<u64, TermView>, p: MultiPattern, ks: Seq<StorageKey>)
    ensures
        p is Nothing ==> (pm_multi(terms, p, ks) is Some <==> ks.len() == 0),
        pm_multi(terms, p, ks) is Some ==> ks.len() >= min_len(p),
        pm_multi(terms, p, ks) is Some ==> (fixed_len(p) matches Some(n) ==> ks.len() == n),
    decreases p,
{
    match p {
        MultiPattern::Nothing => {},
        MultiPattern::One(o) => {
            if ks.len() > 0 {
                lemma_match_takes_all_terms(terms, o.mp, ks.drop_first());
            }
        },
        MultiPattern::Many(m) => {
            let ms = sp_prefix(terms, m.sp, ks);
            lemma_sp_prefix_len(terms, m.sp, ks);
            lemma_match_takes_all_terms(terms, m.mp, ks.skip(ms.len() as int));
        },
    }
}

/// A compound pattern without repetitions matches only compounds with
/// exactly as many elements as it has.
pub proof fn lemma_compound_match_length(terms: Map<u64, TermView>, mp: MultiPattern, k: u64)
    requires
        fixed_len(mp) is Some,
        pm_single(terms, SinglePattern::Compound(Box::new(mp)), k) is Some,
    ensures
        terms[k] is Compound,
        terms[k]->Compound_0.len() == fixed_len(mp)->0,
{
    if let TermView::Compound(ks) = terms[k] {
        lemma_match_takes_all_terms(terms, mp, ks);
    }
}


/// The matches of `v` in those bindings of `ms` that bind it, in order.
pub open spec fn branch_values(ms: Seq<Map<Seq<char>, MatchV>>, v: Seq<char>) -> Seq<MatchV>
    decreases ms.len(),
{
    if ms.len() == 0 {
        Seq::empty()
    } else {
        let a = branch_values(ms.drop_last(), v);
        if ms.last().contains_key(v) {
            a.push(ms.last()[v])
        } else {
            a
        }
    }
}

/// The bindings of repetitions combined: each name the first repetition
/// binds, bound to the branches of its matches in order.
pub open spec fn combine(ms: Seq<Map<Seq<char>, MatchV>>) -> Map<Seq<char>, MatchV> {
    if ms.len() == 0 {
        Map::empty()
    } else {
        Map::new(|v: Seq<char>| ms[0].contains_key(v), |v: Seq<char>| MatchV::Branches(branch_values(ms, v)))
    }
}

/// Matches the term at `k` against `pattern`.
pub fn pattern_match_single(storage: &Storage, pattern: &SinglePattern, k: StorageKey) -> (r: Option<Bindings>)
    requires
        storage.wf(),
        storage.holds(k),
    ensures
        r is Some == pm_single(storage.spec_terms(), *pattern, k@) is Some,
        r matches Some(b) ==> b@ == pm_single(storage.spec_terms(), *pattern, k@)->0,
    decreases sp_height(*pattern), 1nat,
{
    match pattern {
        SinglePattern::Variable(v) => {
            let mut b = Bindings::new();
            b.insert(v.clone(), Match::Leaf(k));
            Some(b)
        },
        SinglePattern::Symbol(s1) => match storage.get(k).unwrap() {
            Term::Symbol(s2) => {
                if s1.eq(s2.data()) {
                    Some(Bindings::new())
                } else {
                    None
                }
            },
            _ => None,
        },
        SinglePattern::Compound(mp) => match storage.get(k).unwrap() {
            Term::Compound(c) => {
                proof {
                    assert(crate::glue_interpreter::storage::children_present(storage.spec_terms(), storage.spec_terms()[k@]));
                }
                pattern_match_multi(storage, mp, c.keys())
            },
            _ => None,
        },
    }
}

/// Matches the terms at `ks` against `pattern`.
pub fn pattern_match_multi(storage: &Storage, pattern: &MultiPattern, ks: &[StorageKey]) -> (r: Option<Bindings>)
    requires
        storage.wf(),
        forall|i: int| 0 <= i < ks@.len() ==> storage.holds(#[trigger] ks@[i]),
    ensures
        r is Some == pm_multi(storage.spec_terms(), *pattern, ks@) is Some,
        r matches Some(b) ==> b@ == pm_multi(storage.spec_terms(), *pattern, ks@)->0,
    decreases mp_height(*pattern), 1nat,
{
    let ghost terms = storage.spec_terms();
    match pattern {
        MultiPattern::Nothing => {
            if ks.len() == 0 {
                Some(Bindings::new())
            } else {
                None
            }
        },
        MultiPattern::One(one) => {
            if ks.len() == 0 {
                return None;
            }
            match pattern_match_single(storage, &one.sp, ks[0]) {
                Some(m1) => {
                    let rest = vstd::slice::slice_subrange(ks, 1, ks.len());
                    assert(rest@ =~= ks@.drop_first());
                    match pattern_match_multi(storage, &one.mp, rest) {
                        Some(m2) => {
                            let mut h = Bindings::new();
                            h.extend(m1);
                            h.extend(m2);
                            assert(h@ =~= pm_multi(terms, *pattern, ks@)->0);
                            Some(h)
                        },
                        None => None,
                    }
                },
                None => None,
            }
        },
        MultiPattern::Many(many) => {
            let ghost all = sp_prefix(terms, many.sp, ks@);
            let mut sp_matches: Vec<Bindings> = Vec::new();
            let mut i: usize = 0;
            assert(ks@.skip(0) =~= ks@);
            while i < ks.len()
                invariant
                    storage.wf(),
                    terms == storage.spec_terms(),
                    forall|j: int| 0 <= j < ks@.len() ==> storage.holds(#[trigger] ks@[j]),
                    i <= ks@.len(),
                    sp_matches@.len() == i,
                    all == sp_prefix(terms, many.sp, ks@),
                    all == sp_matches@.map_values(|b: Bindings| b@) + sp_prefix(terms, many.sp, ks@.skip(i as int)),
                    sp_height(many.sp) < mp_height(*pattern),
                ensures
                    i <= ks@.len(),
                    sp_matches@.len() == i,
                    all == sp_matches@.map_values(|b: Bindings| b@),
                decreases ks@.len() - i,
            {
                let ghost rest = ks@.skip(i as int);
                assert(rest[0] == ks@[i as int]);
                assert(rest.drop_first() =~= ks@.skip(i + 1));
                match pattern_match_single(storage, &many.sp, ks[i]) {
                    Some(m) => {
                        let ghost before = sp_matches@;
                        sp_matches.push(m);
                        assert(sp_matches@.map_values(|b: Bindings| b@) + sp_prefix(terms, many.sp, ks@.skip(i + 1))
                            =~= before.map_values(|b: Bindings| b@) + sp_prefix(terms, many.sp, rest));
                        i = i + 1;
                    },
                    None => {
                        assert(sp_prefix(terms, many.sp, rest) =~= Seq::<Map<Seq<char>, MatchV>>::empty());
                        assert(sp_matches@.map_values(|b: Bindings| b@) + Seq::<Map<Seq<char>, MatchV>>::empty()
                            =~= sp_matches@.map_values(|b: Bindings| b@));
                        break;
                    },
                }
            }
            proof {
                if i == ks@.len() {
                    assert(ks@.skip(i as int).len() == 0);
                    assert(sp_matches@.map_values(|b: Bindings| b@) + Seq::<Map<Seq<char>, MatchV>>::empty()
                        =~= sp_matches@.map_values(|b: Bindings| b@));
                }
            }
            let combined = combine_matches(&sp_matches);
            let rest = vstd::slice::slice_subrange(ks, sp_matches.len(), ks.len());
            assert(rest@ =~= ks@.skip(all.len() as int));
            match pattern_match_multi(storage, &many.mp, rest) {
                Some(mp_matches) => {
                    let mut h = Bindings::new();
                    h.extend(combined);
                    h.extend(mp_matches);
                    assert(h@ =~= pm_multi(terms, *pattern, ks@)->0);
                    Some(h)
                },
                None => None,
            }
        },
    }
}

/// Combines the bindings of repetitions, as [`combine`] says.
fn combine_matches(sp_matches: &Vec<Bindings>) -> (r: Bindings)
    ensures
        r@ == combine(sp_matches@.map_values(|b: Bindings| b@)),
{
    let ghost ms = sp_matches@.map_values(|b: Bindings| b@);
    let mut combined = Bindings::new();
    if sp_matches.len() == 0 {
        assert(combined@ =~= combine(ms));
        return combined;
    }
    let first = &sp_matches[0];
    let n = first.len();
    let mut j: usize = 0;
    while j < n
        invariant
            n == first.spec_entries().len(),
            *first == sp_matches@[0],
            ms == sp_matches@.map_values(|b: Bindings| b@),
            ms.len() > 0,
            j <= n,
            forall|v: Seq<char>| #[trigger] combined@.contains_key(v) ==> combine(ms).contains_key(v) && combined@[v] == combine(ms)[v],
            forall|t: int| 0 <= t < j ==> combined@.contains_key((#[trigger] first.spec_entries()[t]).0@),
        decreases n - j,
    {
        let (name, _) = first.entry(j);
        let mut branches: Vec<Match> = Vec::new();
        let mut t: usize = 0;
        while t < sp_matches.len()
            invariant
                ms == sp_matches@.map_values(|b: Bindings| b@),
                t <= sp_matches@.len(),
                mviews(branches@) == branch_values(ms.take(t as int), name@),
            decreases sp_matches@.len() - t,
        {
            let ghost before = branches@;
            proof {
                assert(ms.take(t + 1).drop_last() =~= ms.take(t as int));
                assert(ms.take(t + 1).last() == sp_matches@[t as int]@);
            }
            match sp_matches[t].get(name) {
                Some(m) => {
                    branches.push(m.clone());
                    assert(branches@.drop_last() =~= before);
                },
                None => {},
            }
            t = t + 1;
        }
        assert(ms.take(sp_matches@.len() as int) =~= ms);
        let ghost bm = Match::Branches(branches);
        combined.insert(name.clone(), Match::Branches(branches));
        proof {
            assert(ms[0] == first@);
            assert(combine(ms).contains_key(name@));
        }
        j = j + 1;
    }
    proof {
        assert forall|v: Seq<char>| combine(ms).contains_key(v) implies #[trigger] combined@.contains_key(v) by {
            assert(ms[0] == first@);
            assert(first@.contains_key(v));
            let t = choose|t: int| 0 <= t < first.spec_entries().len() && first.spec_entries()[t].0@ == v;
            assert(combined@.contains_key(first.spec_entries()[t].0@));
        }
        assert(combined@ =~= combine(ms));
    }
    combined
}

/// `s` is one of the variable names.
pub open spec fn in_vars(vars: Seq<String>, s: Seq<char>) -> bool {
    exists|i: int| 0 <= i < vars.len() && vars[i]@ == s
}

/// The name of the repetition mark.
pub open spec fn dots() -> Seq<char> {
    seq!['.', '.']
}

/// The term at `k` is the repetition mark `..`.
pub open spec fn is_dots(terms: Map<u64, TermView>, k: u64) -> bool {
    terms[k] == TermView::Symbol(dots())
}

/// `p` is the pattern the term at `k` reads as, with `vars` the names of
/// variables: a variable name is a variable, another symbol a symbol, a
/// compound a pattern for its elements.
pub open spec fn parsed_sp(terms: Map<u64, TermView>, k: u64, vars: Seq<String>, p: SinglePattern) -> bool
    decreases p, 0nat,
{
    match p {
        SinglePattern::Variable(v) => terms[k] == TermView::Symbol(v@) && in_vars(vars, v@),
        SinglePattern::Symbol(s) => terms[k] == TermView::Symbol(s@) && !in_vars(vars, s@),
        SinglePattern::Compound(b) => match terms[k] {
            TermView::Compound(ks) => parsed_mp(terms, ks, vars, *b),
            _ => false,
        },
    }
}

/// `p` is the pattern the terms at `ks` read as: an element followed by
/// `..` repeats.
pub open spec fn parsed_mp(terms: Map<u64, TermView>, ks: Seq<StorageKey>, vars: Seq<String>, p: MultiPattern) -> bool
    decreases p, 0nat,
{
    match p {
        MultiPattern::Nothing => ks.len() == 0,
        MultiPattern::One(o) => {
            &&& ks.len() >= 1
            &&& parsed_sp(terms, ks[0]@, vars, o.sp)
            &&& ks.len() >= 2 ==> !is_dots(terms, ks[1]@)
            &&& parsed_mp(terms, ks.drop_first(), vars, o.mp)
        },
        MultiPattern::Many(m) => {
            &&& ks.len() >= 2
            &&& is_dots(terms, ks[1]@)
            &&& parsed_sp(terms, ks[0]@, vars, m.sp)
            &&& parsed_mp(terms, ks.skip(2), vars, m.mp)
        },
    }
}

/// Each term at `ks` is made of symbols and compounds nested less than
/// `d` deep.
pub open spec fn all_plain(terms: Map<u64, TermView>, ks: Seq<StorageKey>, d: nat) -> bool {
    forall|i: int| 0 <= i < ks.len() ==> is_plain(terms, #[trigger] ks[i]@, d)
}

/// Whether `name` is one of `variables`.
fn contains_name(variables: &[String], name: &String) -> (r: bool)
    ensures
        r == in_vars(variables@, name@),
{
    let mut i: usize = 0;
    while i < variables.len()
        invariant
            i <= variables@.len(),
            forall|j: int| 0 <= j < i ==> (#[trigger] variables@[j])@ != name@,
        decreases variables@.len() - i,
    {
        if variables[i].eq(name) {
            return true;
        }
        i = i + 1;
    }
    false
}

/// Whether the term at `k` is the symbol `..`.
pub fn is_dot_dots(storage: &Storage, k: StorageKey) -> (r: bool)
    requires
        storage.holds(k),
    ensures
        r == is_dots(storage.spec_terms(), k@),
{
    match storage.get(k).unwrap() {
        Term::Symbol(s) => {
            let d = "..".to_owned();
            proof {
                reveal_strlit("..");
                assert(d@ =~= dots());
            }
            s.data().eq(&d)
        },
        _ => false,
    }
}

/// Reads the term at `pattern`, nested less than `d` deep, as a pattern.
fn parse_pattern_single_within(storage: &Storage, pattern: StorageKey, variables: &[String], Ghost(d): Ghost<nat>) -> (r: SinglePattern)
    requires
        storage.wf(),
        is_plain(storage.spec_terms(), pattern@, d),
    ensures
        parsed_sp(storage.spec_terms(), pattern@, variables@, r),
    decreases d, 0nat,
{
    match storage.get(pattern).unwrap() {
        Term::Symbol(s) => {
            if contains_name(variables, s.data()) {
                SinglePattern::Variable(s.data().clone())
            } else {
                SinglePattern::Symbol(s.data().clone())
            }
        },
        Term::Compound(c) => {
            let mp = parse_pattern_multi_within(storage, c.keys(), variables, Ghost((d - 1) as nat));
            SinglePattern::Compound(Box::new(mp))
        },
        _ => {
            assert(false);
            SinglePattern::Symbol(String::new())
        },
    }
}

/// Reads the terms at `keys`, each nested less than `d` deep, as a
/// pattern for elements.
fn parse_pattern_multi_within(storage: &Storage, keys: &[StorageKey], variables: &[String], Ghost(d): Ghost<nat>) -> (r: MultiPattern)
    requires
        storage.wf(),
        forall|i: int| 0 <= i < keys@.len() ==> is_plain(storage.spec_terms(), #[trigger] keys@[i]@, d),
    ensures
        parsed_mp(storage.spec_terms(), keys@, variables@, r),
    decreases d, keys@.len() + 1,
{
    if keys.len() == 0 {
        MultiPattern::Nothing
    } else if keys.len() == 1 {
        let sp = parse_pattern_single_within(storage, keys[0], variables, Ghost(d));
        assert(keys@.drop_first().len() == 0);
        let r = MultiPattern::One(Box::new(One { sp, mp: MultiPattern::Nothing }));
        assert(parsed_mp(storage.spec_terms(), keys@.drop_first(), variables@, MultiPattern::Nothing));
        assert(parsed_mp(storage.spec_terms(), keys@, variables@, r));
        r
    } else {
        let k = keys[1];
        assert(is_plain(storage.spec_terms(), keys@[1]@, d));
        if is_dot_dots(storage, k) {
            let sp = parse_pattern_single_within(storage, keys[0], variables, Ghost(d));
            let rest = vstd::slice::slice_subrange(keys, 2, keys.len());
            assert(rest@ =~= keys@.skip(2));
            let mp = parse_pattern_multi_within(storage, rest, variables, Ghost(d));
            let r = MultiPattern::Many(Box::new(Many { sp, mp }));
            assert(parsed_mp(storage.spec_terms(), keys@, variables@, r));
            r
        } else {
            let sp = parse_pattern_single_within(storage, keys[0], variables, Ghost(d));
            let rest = vstd::slice::slice_subrange(keys, 1, keys.len());
            assert(rest@ =~= keys@.drop_first());
            let mp = parse_pattern_multi_within(storage, rest, variables, Ghost(d));
            let r = MultiPattern::One(Box::new(One { sp, mp }));
            assert(parsed_mp(storage.spec_terms(), keys@, variables@, r));
            r
        }
    }
}

/// Reads the term at `pattern` as a pattern, with `variables` the names of
/// variables. The term is made of symbols and compounds, nested finitely.
pub fn parse_rule_pattern_single(storage: &Storage, pattern: StorageKey, variables: &[String]) -> (r: SinglePattern)
    requires
        storage.wf(),
        exists|d: nat| is_plain(storage.spec_terms(), pattern@, d),
    ensures
        parsed_sp(storage.spec_terms(), pattern@, variables@, r),
{
    let ghost d = plain_depth(storage.spec_terms(), pattern@);
    parse_pattern_single_within(storage, pattern, variables, Ghost(d))
}

/// Reads the terms at `keys` as a pattern for elements, with `variables`
/// the names of variables. The terms are made of symbols and compounds,
/// nested less than some depth.
pub fn parse_rule_pattern_multi(storage: &Storage, keys: &[StorageKey], variables: &[String]) -> (r: MultiPattern)
    requires
        storage.wf(),
        exists|d: nat| all_plain(storage.spec_terms(), keys@, d),
    ensures
        parsed_mp(storage.spec_terms(), keys@, variables@, r),
{
    let ghost d = choose|d: nat| all_plain(storage.spec_terms(), keys@, d);
    parse_pattern_multi_within(storage, keys, variables, Ghost(d))
}

/// A pattern for the term a rule builds.
#[derive(Hash, PartialEq, Eq, Debug)]
pub enum ResultSinglePattern {
    /// The symbol term at the key.
    Symbol(StorageKey),
    /// The term bound to the variable.
    Variable(String),
    /// A new compound of the elements.
    Compound(Vec<ResultPattern>),
}

/// A pattern for elements of a built compound.
#[derive(Hash, PartialEq, Eq, Debug)]
pub enum ResultPattern {
    /// One element.
    Single(Box<ResultSinglePattern>),
    /// The elements of the inner pattern for each branch of its variables.
    Append(Box<ResultPattern>),
}

/// How deep the pattern nests.
pub open spec fn rsp_height(p: ResultSinglePattern) -> nat
    decreases p, 0nat,
{
    match p {
        ResultSinglePattern::Compound(ps) => rps_height(ps@) + 1,
        _ => 0,
    }
}

/// How deep the patterns nest.
pub open spec fn rps_height(ps: Seq<ResultPattern>) -> nat
    decreases ps, 0nat,
{
    if ps.len() == 0 {
        0
    } else {
        let a = rps_height(ps.drop_last());
        let b = rp_height(ps.last()) + 1;
        if a > b {
            a
        } else {
            b
        }
    }
}

/// How deep the pattern nests.
pub open spec fn rp_height(p: ResultPattern) -> nat
    decreases p, 0nat,
{
    match p {
        ResultPattern::Single(b) => rsp_height(*b) + 1,
        ResultPattern::Append(b) => rp_height(*b) + 1,
    }
}

proof fn lemma_rps_height(ps: Seq<ResultPattern>, i: int)
    requires
        0 <= i < ps.len(),
    ensures
        rp_height(ps[i]) < rps_height(ps),
    decreases ps.len(),
{
    if i < ps.len() - 1 {
        lemma_rps_height(ps.drop_last(), i);
        assert(ps.drop_last()[i] == ps[i]);
    }
}

/// The term at `k` is a symbol that names a variable.
pub open spec fn is_var_symbol(terms: Map<u64, TermView>, k: u64, vars: Seq<String>) -> bool {
    terms[k] matches TermView::Symbol(s) && in_vars(vars, s)
}

/// How many `..` marks start `ks`.
pub open spec fn dots_run(terms: Map<u64, TermView>, ks: Seq<StorageKey>) -> nat
    decreases ks.len(),
{
    if ks.len() > 0 && is_dots(terms, ks[0]@) {
        1 + dots_run(terms, ks.drop_first())
    } else {
        0
    }
}

/// How many times the first of `ks` is repeated: the marks `..` that
/// follow it when it names a variable.
pub open spec fn lead_dots(terms: Map<u64, TermView>, ks: Seq<StorageKey>, vars: Seq<String>) -> nat {
    if ks.len() > 0 && is_var_symbol(terms, ks[0]@, vars) {
        dots_run(terms, ks.drop_first())
    } else {
        0
    }
}

/// `p` is the result pattern the term at `k` reads as.
pub open spec fn parsed_rsp(terms: Map<u64, TermView>, k: u64, vars: Seq<String>, p: ResultSinglePattern) -> bool
    decreases p, 0nat,
{
    match p {
        ResultSinglePattern::Variable(v) => terms[k] == TermView::Symbol(v@) && in_vars(vars, v@),
        ResultSinglePattern::Symbol(sk) => sk@ == k && terms[k] is Symbol && !is_var_symbol(terms, k, vars),
        ResultSinglePattern::Compound(ps) => match terms[k] {
            TermView::Compound(ks) => parsed_rps(terms, ks, vars, ps@),
            _ => false,
        },
    }
}

/// `ps` are the result patterns the terms at `ks` read as: a variable
/// followed by `n` marks `..` is appended `n` times.
pub open spec fn parsed_rps(terms: Map<u64, TermView>, ks: Seq<StorageKey>, vars: Seq<String>, ps: Seq<ResultPattern>) -> bool
    decreases ps, 0nat,
{
    if ks.len() == 0 {
        ps.len() == 0
    } else {
        let n = lead_dots(terms, ks, vars);
        &&& ps.len() >= 1
        &&& appended(terms, ks[0]@, vars, n, ps[0])
        &&& parsed_rps(terms, ks.skip(n + 1int), vars, ps.drop_first())
    }
}

/// `p` is the pattern of the term at `k` appended `n` times.
pub open spec fn appended(terms: Map<u64, TermView>, k: u64, vars: Seq<String>, n: nat, p: ResultPattern) -> bool
    decreases p, 0nat,
{
    match p {
        ResultPattern::Single(b) => n == 0 && parsed_rsp(terms, k, vars, *b),
        ResultPattern::Append(b) => n > 0 && appended(terms, k, vars, (n - 1) as nat, *b),
    }
}

proof fn lemma_dots_run(terms: Map<u64, TermView>, ks: Seq<StorageKey>, j: int)
    requires
        0 <= j <= dots_run(terms, ks),
    ensures
        dots_run(terms, ks) <= ks.len(),
        forall|t: int| 0 <= t < j ==> is_dots(terms, #[trigger] ks[t]@),
        dots_run(terms, ks.skip(j)) == dots_run(terms, ks) - j,
    decreases ks.len(),
{
    if ks.len() > 0 && is_dots(terms, ks[0]@) {
        if j > 0 {
            lemma_dots_run(terms, ks.drop_first(), j - 1);
            assert(ks.drop_first().skip(j - 1) =~= ks.skip(j));
            assert forall|t: int| 0 <= t < j implies is_dots(terms, #[trigger] ks[t]@) by {
                if t > 0 {
                    assert(ks.drop_first()[t - 1] == ks[t]);
                }
            }
        } else {
            assert(ks.skip(0) =~= ks);
            lemma_dots_run(terms, ks.drop_first(), 0);
        }
    } else {
        assert(ks.skip(0) =~= ks);
    }
}

/// Reads the term at `result`, nested less than `d` deep, as a result
/// pattern.
fn parse_result_single_within(storage: &Storage, variables: &[String], result: StorageKey, Ghost(d): Ghost<nat>) -> (r: ResultSinglePattern)
    requires
        storage.wf(),
        is_plain(storage.spec_terms(), result@, d),
    ensures
        parsed_rsp(storage.spec_terms(), result@, variables@, r),
    decreases d, 0nat,
{
    match storage.get(result).unwrap() {
        Term::Symbol(s) => {
            if contains_name(variables, s.data()) {
                ResultSinglePattern::Variable(s.data().clone())
            } else {
                ResultSinglePattern::Symbol(result)
            }
        },
        Term::Compound(c) => {
            let ps = parse_result_multi_within(storage, variables, c.keys(), Ghost((d - 1) as nat));
            ResultSinglePattern::Compound(ps)
        },
        _ => {
            assert(false);
            ResultSinglePattern::Symbol(result)
        },
    }
}

/// Reads the terms at `keys`, each nested less than `d` deep, as result
/// patterns.
fn parse_result_multi_within(storage: &Storage, variables: &[String], keys: &[StorageKey], Ghost(d): Ghost<nat>) -> (r: Vec<ResultPattern>)
    requires
        storage.wf(),
        all_plain(storage.spec_terms(), keys@, d),
    ensures
        parsed_rps(storage.spec_terms(), keys@, variables@, r@),
    decreases d, keys@.len() + 1,
{
    let ghost terms = storage.spec_terms();
    if keys.len() == 0 {
        return Vec::new();
    }
    assert(is_plain(terms, keys@[0]@, d));
    let is_variable = match storage.get(keys[0]).unwrap() {
        Term::Symbol(s) => contains_name(variables, s.data()),
        _ => false,
    };
    let ghost n = lead_dots(terms, keys@, variables@);
    let mut parsed: Option<ResultPattern> = None;
    let mut j: usize = 0;
    proof {
        if is_variable {
            lemma_dots_run(terms, keys@.drop_first(), 0);
        }
    }
    while is_variable && j < keys.len() - 1 && is_dot_dots_at(storage, keys, j + 1)
        invariant
            storage.wf(),
            terms == storage.spec_terms(),
            all_plain(terms, keys@, d),
            is_variable == is_var_symbol(terms, keys@[0]@, variables@),
            n == lead_dots(terms, keys@, variables@),
            keys@.len() >= 1,
            j <= n,
            j < keys@.len(),
            j == 0 <==> parsed is None,
            parsed matches Some(p) ==> appended(terms, keys@[0]@, variables@, j as nat, p),
            is_variable ==> n == dots_run(terms, keys@.drop_first()),
            is_variable ==> dots_run(terms, keys@.drop_first().skip(j as int)) == n - j,
            !is_variable ==> n == 0,
        decreases keys@.len() - j,
    {
        proof {
            let rest = keys@.drop_first().skip(j as int);
            assert(rest[0] == keys@[j + 1]);
            assert(rest.drop_first() =~= keys@.drop_first().skip(j + 1));
        }
        let inner = match parsed {
            Some(p) => p,
            None => {
                let sp = parse_result_single_within(storage, variables, keys[0], Ghost(d));
                let single = ResultPattern::Single(Box::new(sp));
                assert(appended(terms, keys@[0]@, variables@, 0, single));
                single
            },
        };
        assert(appended(terms, keys@[0]@, variables@, j as nat, inner));
        let next = ResultPattern::Append(Box::new(inner));
        assert(appended(terms, keys@[0]@, variables@, (j + 1) as nat, next));
        parsed = Some(next);
        j = j + 1;
    }
    proof {
        if is_variable && j < n {
            let rest = keys@.drop_first().skip(j as int);
            assert(rest.len() > 0 && is_dots(terms, rest[0]@));
            assert(rest[0] == keys@[j + 1]);
        }
        assert(j == n);
    }
    let first = match parsed {
        Some(p) => p,
        None => {
            let sp = parse_result_single_within(storage, variables, keys[0], Ghost(d));
            let single = ResultPattern::Single(Box::new(sp));
            assert(appended(terms, keys@[0]@, variables@, 0, single));
            single
        },
    };
    assert(appended(terms, keys@[0]@, variables@, n, first));
    let rest = vstd::slice::slice_subrange(keys, j + 1, keys.len());
    assert(rest@ =~= keys@.skip(n + 1int));
    let tail = parse_result_multi_within(storage, variables, rest, Ghost(d));
    let mut result: Vec<ResultPattern> = Vec::new();
    result.push(first);
    let mut tail = tail;
    let ghost tv = tail@;
    result.append(&mut tail);
    assert(result@.drop_first() =~= tv);
    result
}

/// Whether the term at position `i` of `keys` is the symbol `..`.
fn is_dot_dots_at(storage: &Storage, keys: &[StorageKey], i: usize) -> (r: bool)
    requires
        storage.wf(),
        i < keys@.len(),
        exists|d: nat| is_plain(storage.spec_terms(), keys@[i as int]@, d),
    ensures
        r == is_dots(storage.spec_terms(), keys@[i as int]@),
{
    is_dot_dots(storage, keys[i])
}

/// Reads the term at `result` as a result pattern, with `variables` the
/// names of variables. The term is made of symbols and compounds, nested
/// finitely.
pub fn parse_rule_result_single(storage: &Storage, variables: &[String], result: StorageKey) -> (r: ResultSinglePattern)
    requires
        storage.wf(),
        exists|d: nat| is_plain(storage.spec_terms(), result@, d),
    ensures
        parsed_rsp(storage.spec_terms(), result@, variables@, r),
{
    let ghost d = plain_depth(storage.spec_terms(), result@);
    parse_result_single_within(storage, variables, result, Ghost(d))
}

/// Reads the terms at `keys` as result patterns, with `variables` the
/// names of variables.
pub fn parse_rule_result_multi(storage: &Storage, variables: &[String], keys: &[StorageKey]) -> (r: Vec<ResultPattern>)
    requires
        storage.wf(),
        exists|d: nat| all_plain(storage.spec_terms(), keys@, d),
    ensures
        parsed_rps(storage.spec_terms(), keys@, variables@, r@),
{
    let ghost d = choose|d: nat| all_plain(storage.spec_terms(), keys@, d);
    parse_result_multi_within(storage, variables, keys, Ghost(d))
}

/// The variable named `v` occurs in `p`.
pub open spec fn captured(v: Seq<char>, p: ResultPattern) -> bool
    decreases p, 0nat,
{
    match p {
        ResultPattern::Single(s) => captured_single(v, *s),
        ResultPattern::Append(a) => captured(v, *a),
    }
}

/// The variable named `v` occurs in `s`.
pub open spec fn captured_single(v: Seq<char>, s: ResultSinglePattern) -> bool
    decreases s, 0nat,
{
    match s {
        ResultSinglePattern::Symbol(_) => false,
        ResultSinglePattern::Variable(x) => x@ == v,
        ResultSinglePattern::Compound(ps) => captured_any(v, ps@),
    }
}

/// The variable named `v` occurs in one of `ps`.
pub open spec fn captured_any(v: Seq<char>, ps: Seq<ResultPattern>) -> bool
    decreases ps, 0nat,
{
    ps.len() > 0 && (captured_any(v, ps.drop_last()) || captured(v, ps.last()))
}

/// The bindings of `m` for the variables that occur in `p`.
pub open spec fn narrow(m: Map<Seq<char>, MatchV>, p: ResultPattern) -> Map<Seq<char>, MatchV> {
    Map::new(|v: Seq<char>| m.contains_key(v) && captured(v, p), |v: Seq<char>| m[v])
}

/// The branches of a match; none for a leaf.
pub open spec fn branches(m: MatchV) -> Seq<MatchV> {
    match m {
        MatchV::Branches(b) => b,
        MatchV::Leaf(_) => Seq::empty(),
    }
}

/// Every name of `m` is bound to `n` branches.
pub open spec fn branches_of_len(m: Map<Seq<char>, MatchV>, n: nat) -> bool {
    forall|v: Seq<char>| #[trigger] m.contains_key(v) ==> (m[v] is Branches && branches(m[v]).len() == n)
}

/// The bindings of `m` split by branch: for each position, each name bound
/// to its branch there. `None` where a name is bound to a leaf or the names
/// have different numbers of branches.
pub open spec fn split_spec(m: Map<Seq<char>, MatchV>) -> Option<Seq<Map<Seq<char>, MatchV>>> {
    if forall|v: Seq<char>| !#[trigger] m.contains_key(v) {
        Some(Seq::empty())
    } else if exists|n: nat| branches_of_len(m, n) {
        let n = choose|n: nat| branches_of_len(m, n);
        Some(Seq::new(n, |i: int| Map::new(|v: Seq<char>| m.contains_key(v), |v: Seq<char>| branches(m[v])[i])))
    } else {
        None
    }
}

/// What the result pattern builds with the bindings `m`; `None` where a
/// variable is unbound or bound to branches.
pub open spec fn cm_single(m: Map<Seq<char>, MatchV>, p: ResultSinglePattern) -> Option<CVal>
    decreases p, 0nat,
{
    match p {
        ResultSinglePattern::Symbol(s) => Some(CVal::Key(s@)),
        ResultSinglePattern::Variable(v) => if m.contains_key(v@) {
            match m[v@] {
                MatchV::Leaf(k) => Some(CVal::Key(k)),
                _ => None,
            }
        } else {
            None
        },
        ResultSinglePattern::Compound(ps) => match cm_multi(m, ps@) {
            Some(vs) => Some(CVal::Built(vs)),
            None => None,
        },
    }
}

/// What the result patterns build with the bindings `m`, in order.
pub open spec fn cm_multi(m: Map<Seq<char>, MatchV>, ps: Seq<ResultPattern>) -> Option<Seq<CVal>>
    decreases ps, 0nat,
{
    if ps.len() == 0 {
        Some(Seq::empty())
    } else {
        match (cm_multi(m, ps.drop_last()), cm_one(m, ps.last())) {
            (Some(a), Some(b)) => Some(a + b),
            _ => None,
        }
    }
}

/// What one result pattern builds with the bindings `m`: an appended
/// pattern builds its inner pattern for each branch of its variables.
pub open spec fn cm_one(m: Map<Seq<char>, MatchV>, p: ResultPattern) -> Option<Seq<CVal>>
    decreases p, 0nat,
{
    match p {
        ResultPattern::Single(s) => match cm_single(m, *s) {
            Some(v) => Some(seq![v]),
            None => None,
        },
        ResultPattern::Append(a) => match split_spec(narrow(m, *a)) {
            Some(ms) => cm_each(ms, *a),
            None => None,
        },
    }
}

/// What `a` builds with each of the bindings `ms`, in order.
pub open spec fn cm_each(ms: Seq<Map<Seq<char>, MatchV>>, a: ResultPattern) -> Option<Seq<CVal>>
    decreases a, ms.len() + 1,
{
    if ms.len() == 0 {
        Some(Seq::empty())
    } else {
        match (cm_each(ms.drop_last(), a), cm_one(ms.last(), a)) {
            (Some(x), Some(y)) => Some(x + y),
            _ => None,
        }
    }
}

/// Every key that `v` takes from the store is held in `terms`.
pub open spec fn cval_keys_held(terms: Map<u64, TermView>, v: CVal) -> bool
    decreases v,
{
    match v {
        CVal::Key(k) => terms.contains_key(k),
        CVal::Atom(_) => true,
        CVal::Built(vs) => forall|i: int| 0 <= i < vs.len() ==> cval_keys_held(terms, #[trigger] vs[i]),
    }
}

/// Every key that one of `vs` takes from the store is held in `terms`.
pub open spec fn cvals_keys_held(terms: Map<u64, TermView>, vs: Seq<CVal>) -> bool {
    forall|i: int| 0 <= i < vs.len() ==> cval_keys_held(terms, #[trigger] vs[i])
}

proof fn lemma_keys_held_grows(small: Map<u64, TermView>, big: Map<u64, TermView>, v: CVal)
    requires
        small.submap_of(big),
        cval_keys_held(small, v),
    ensures
        cval_keys_held(big, v),
    decreases v,
{
    match v {
        CVal::Key(k) => {
            assert(big.contains_key(k));
        },
        CVal::Atom(_) => {},
        CVal::Built(vs) => {
            assert forall|i: int| 0 <= i < vs.len() implies cval_keys_held(big, #[trigger] vs[i]) by {
                lemma_keys_held_grows(small, big, vs[i]);
            }
        },
    }
}

proof fn lemma_cm_multi_prefix(m: Map<Seq<char>, MatchV>, ps: Seq<ResultPattern>, i: int)
    requires
        cm_multi(m, ps) is Some,
        0 <= i <= ps.len(),
    ensures
        cm_multi(m, ps.take(i)) is Some,
        cm_multi(m, ps.take(i))->0.len() <= cm_multi(m, ps)->0.len(),
        forall|j: int| 0 <= j < cm_multi(m, ps.take(i))->0.len() ==> #[trigger] cm_multi(m, ps.take(i))->0[j] == cm_multi(m, ps)->0[j],
        cvals_size(cm_multi(m, ps.take(i))->0) <= cvals_size(cm_multi(m, ps)->0),
    decreases ps.len() - i,
{
    if i == ps.len() {
        assert(ps.take(i) =~= ps);
    } else {
        lemma_cm_multi_prefix(m, ps, i + 1);
        let t1 = ps.take(i + 1);
        assert(t1.drop_last() =~= ps.take(i));
        let a = cm_multi(m, ps.take(i))->0;
        let b = cm_one(m, t1.last())->0;
        lemma_cvals_size_append(a, b);
        assert forall|j: int| 0 <= j < a.len() implies #[trigger] cm_multi(m, ps.take(i))->0[j] == cm_multi(m, ps)->0[j] by {
            assert((a + b)[j] == a[j]);
        }
    }
}

proof fn lemma_cm_each_prefix(ms: Seq<Map<Seq<char>, MatchV>>, a: ResultPattern, i: int)
    requires
        cm_each(ms, a) is Some,
        0 <= i <= ms.len(),
    ensures
        cm_each(ms.take(i), a) is Some,
        cm_each(ms.take(i), a)->0.len() <= cm_each(ms, a)->0.len(),
        forall|j: int| 0 <= j < cm_each(ms.take(i), a)->0.len() ==> #[trigger] cm_each(ms.take(i), a)->0[j] == cm_each(ms, a)->0[j],
        cvals_size(cm_each(ms.take(i), a)->0) <= cvals_size(cm_each(ms, a)->0),
    decreases ms.len() - i,
{
    if i == ms.len() {
        assert(ms.take(i) =~= ms);
    } else {
        lemma_cm_each_prefix(ms, a, i + 1);
        let t1 = ms.take(i + 1);
        assert(t1.drop_last() =~= ms.take(i));
        let x = cm_each(ms.take(i), a)->0;
        let y = cm_one(t1.last(), a)->0;
        lemma_cvals_size_append(x, y);
        assert forall|j: int| 0 <= j < x.len() implies #[trigger] cm_each(ms.take(i), a)->0[j] == cm_each(ms, a)->0[j] by {
            assert((x + y)[j] == x[j]);
        }
    }
}

/// Whether the variable `var` occurs in `pattern`.
pub fn is_captured_variable(var: &String, pattern: &ResultPattern) -> (r: bool)
    ensures
        r == captured(var@, *pattern),
    decreases rp_height(*pattern), 0nat,
{
    match pattern {
        ResultPattern::Single(s) => is_captured_single(var, s),
        ResultPattern::Append(a) => is_captured_variable(var, a),
    }
}

/// Whether the variable `var` occurs in `s`.
fn is_captured_single(var: &String, s: &ResultSinglePattern) -> (r: bool)
    ensures
        r == captured_single(var@, *s),
    decreases rsp_height(*s), 0nat,
{
    match s {
        ResultSinglePattern::Symbol(_) => false,
        ResultSinglePattern::Variable(v) => v.eq(var),
        ResultSinglePattern::Compound(ps) => {
            let mut i: usize = 0;
            assert(ps@.take(0) =~= Seq::<ResultPattern>::empty());
            assert(captured_single(var@, *s) == captured_any(var@, ps@));
            while i < ps.len()
                invariant
                    i <= ps@.len(),
                    captured_single(var@, *s) == captured_any(var@, ps@),
                    rsp_height(*s) == rps_height(ps@) + 1,
                    !captured_any(var@, ps@.take(i as int)),
                decreases ps@.len() - i,
            {
                proof {
                    lemma_rps_height(ps@, i as int);
                    assert(ps@.take(i + 1).drop_last() =~= ps@.take(i as int));
                    assert(ps@.take(i + 1).last() == ps@[i as int]);
                }
                if is_captured_variable(var, &ps[i]) {
                    proof {
                        assert(ps@.take(i + 1) =~= ps@.take(i + 1));
                        lemma_captured_any_prefix(var@, ps@, i + 1);
                    }
                    return true;
                }
                i = i + 1;
            }
            assert(ps@.take(ps@.len() as int) =~= ps@);
            false
        },
    }
}

proof fn lemma_captured_any_prefix(v: Seq<char>, ps: Seq<ResultPattern>, i: int)
    requires
        0 <= i <= ps.len(),
        captured_any(v, ps.take(i)),
    ensures
        captured_any(v, ps),
    decreases ps.len() - i,
{
    if i < ps.len() {
        assert(ps.take(i + 1).drop_last() =~= ps.take(i));
        lemma_captured_any_prefix(v, ps, i + 1);
    } else {
        assert(ps.take(i) =~= ps);
    }
}

/// The bindings of `matches` for the variables that occur in `pattern`.
pub fn narrow_to_captured_variables(matches: &Bindings, pattern: &ResultPattern) -> (r: Bindings)
    ensures
        r@ == narrow(matches@, *pattern),
{
    let mut result = Bindings::new();
    let n = matches.len();
    let mut i: usize = 0;
    while i < n
        invariant
            n == matches.spec_entries().len(),
            i <= n,
            forall|v: Seq<char>| #[trigger] result@.contains_key(v) ==> narrow(matches@, *pattern).contains_key(v) && result@[v] == matches@[v],
            forall|t: int| 0 <= t < i && captured((#[trigger] matches.spec_entries()[t]).0@, *pattern) ==> result@.contains_key(matches.spec_entries()[t].0@),
        decreases n - i,
    {
        let (k, v) = matches.entry(i);
        if is_captured_variable(k, pattern) {
            result.insert(k.clone(), v.clone());
        }
        i = i + 1;
    }
    proof {
        assert forall|v: Seq<char>| narrow(matches@, *pattern).contains_key(v) implies #[trigger] result@.contains_key(v) by {
            matches.lemma_dom(v);
            let t = choose|t: int| 0 <= t < matches.spec_entries().len() && (#[trigger] matches.spec_entries()[t]).0@ == v;
            assert(captured(matches.spec_entries()[t].0@, *pattern));
        }
        assert(result@ =~= narrow(matches@, *pattern));
    }
    result
}

/// The bindings split by branch, as [`split_spec`] says.
pub fn split_branches(matches: &Bindings) -> (r: Vec<Bindings>)
    requires
        split_spec(matches@) is Some,
    ensures
        r@.map_values(|b: Bindings| b@) == split_spec(matches@)->0,
{
    let ghost m = matches@;
    let len = matches.len();
    let mut result: Vec<Bindings> = Vec::new();
    if len == 0 {
        proof {
            assert forall|v: Seq<char>| !#[trigger] m.contains_key(v) by {
                if m.contains_key(v) {
                    matches.lemma_dom(v);
                }
            }
        }
        assert(result@.map_values(|b: Bindings| b@) =~= Seq::<Map<Seq<char>, MatchV>>::empty());
        return result;
    }
    let (_, first) = matches.entry(0);
    let n = match first {
        Match::Branches(b) => b.len(),
        Match::Leaf(_) => 0,
    };
    proof {
        let name0 = matches.spec_entries()[0].0@;
        assert(m.contains_key(name0));
        let n0 = choose|n: nat| branches_of_len(m, n);
        assert(branches_of_len(m, n0));
        assert(m[name0] is Branches);
        lemma_mviews(match first { Match::Branches(b) => b@, _ => Seq::empty() });
        assert(n0 == n);
    }
    let ghost goal = split_spec(m)->0;
    let mut i: usize = 0;
    while i < n
        invariant
            m == matches@,
            len == matches.spec_entries().len(),
            branches_of_len(m, n as nat),
            goal == split_spec(m)->0,
            goal.len() == n,
            goal == Seq::new(n as nat, |i: int| Map::new(|v: Seq<char>| m.contains_key(v), |v: Seq<char>| branches(m[v])[i])),
            i <= n,
            result@.map_values(|b: Bindings| b@) == goal.take(i as int),
        decreases n - i,
    {
        let mut b = Bindings::new();
        let mut e: usize = 0;
        while e < len
            invariant
                m == matches@,
                len == matches.spec_entries().len(),
                branches_of_len(m, n as nat),
                i < n,
                e <= len,
                forall|v: Seq<char>| #[trigger] b@.contains_key(v) ==> m.contains_key(v) && b@[v] == branches(m[v])[i as int],
                forall|t: int| 0 <= t < e ==> b@.contains_key((#[trigger] matches.spec_entries()[t]).0@),
            decreases len - e,
        {
            let (name, mt) = matches.entry(e);
            match mt {
                Match::Branches(bs) => {
                    proof {
                        lemma_mviews(bs@);
                        assert(m.contains_key(name@));
                    }
                    let item = bs[i].clone();
                    b.insert(name.clone(), item);
                },
                Match::Leaf(_) => {
                    proof {
                        assert(m.contains_key(name@));
                    }
                },
            }
            e = e + 1;
        }
        proof {
            assert forall|v: Seq<char>| m.contains_key(v) implies #[trigger] b@.contains_key(v) by {
                matches.lemma_dom(v);
                let t = choose|t: int| 0 <= t < matches.spec_entries().len() && (#[trigger] matches.spec_entries()[t]).0@ == v;
                assert(b@.contains_key(matches.spec_entries()[t].0@));
            }
            assert(b@ =~= goal[i as int]);
        }
        let ghost before = result@;
        let ghost bv = b@;
        result.push(b);
        assert(result@.map_values(|x: Bindings| x@) =~= before.map_values(|x: Bindings| x@).push(bv));
        assert(goal.take(i + 1) =~= goal.take(i as int).push(goal[i as int]));
        i = i + 1;
    }
    assert(goal.take(n as int) =~= goal);
    result
}

/// Builds the term that `pattern` says with the bindings `matches`: a
/// symbol or a bound term by its key, a compound as a new term.
pub fn create_match_result_single(storage: &mut Storage, matches: &Bindings, pattern: &ResultSinglePattern) -> (r: StorageKey)
    requires
        old(storage).wf(),
        cm_single(matches@, *pattern) is Some,
        cval_keys_held(old(storage).spec_terms(), cm_single(matches@, *pattern)->0),
        old(storage).has_room(cval_size(cm_single(matches@, *pattern)->0)),
    ensures
        final(storage).wf(),
        old(storage).spec_terms().submap_of(final(storage).spec_terms()),
        final(storage).spec_terms().len() == old(storage).spec_terms().len() + cval_size(cm_single(matches@, *pattern)->0),
        final(storage).spec_terms().contains_key(r@),
        cdenotes(final(storage).spec_terms(), r@, cm_single(matches@, *pattern)->0),
        final(storage).spec_fixed() == old(storage).spec_fixed(),
        final(storage).spec_rules() == old(storage).spec_rules(),
    decreases rsp_height(*pattern), 0nat,
{
    match pattern {
        ResultSinglePattern::Symbol(s) => *s,
        ResultSinglePattern::Variable(v) => match matches.get(v).unwrap() {
            Match::Leaf(l) => *l,
            Match::Branches(_) => vstd::pervasive::unreached(),
        },
        ResultSinglePattern::Compound(c) => {
            let ghost vals = cm_multi(matches@, c@)->0;
            assert(rps_height(c@) < rsp_height(*pattern));
            let keys = create_match_result_multi(storage, matches, c.as_slice());
            let ghost before = storage.spec_terms();
            let ghost kv = keys@;
            let r = storage.insert(Term::Compound(Compound::new(keys)));
            proof {
                let after = storage.spec_terms();
                assert forall|m: int| 0 <= m < vals.len() implies cdenotes(after, #[trigger] kv[m]@, vals[m]) by {
                    lemma_cdenotes_grows(before, after, kv[m]@, vals[m]);
                }
            }
            r
        },
    }
}

/// Builds the terms that `patterns` say with the bindings `matches`, in
/// order.
pub fn create_match_result_multi(storage: &mut Storage, matches: &Bindings, patterns: &[ResultPattern]) -> (r: Vec<StorageKey>)
    requires
        old(storage).wf(),
        cm_multi(matches@, patterns@) is Some,
        cvals_keys_held(old(storage).spec_terms(), cm_multi(matches@, patterns@)->0),
        old(storage).has_room(cvals_size(cm_multi(matches@, patterns@)->0)),
    ensures
        final(storage).wf(),
        old(storage).spec_terms().submap_of(final(storage).spec_terms()),
        final(storage).spec_terms().len() == old(storage).spec_terms().len() + cvals_size(cm_multi(matches@, patterns@)->0),
        r@.len() == cm_multi(matches@, patterns@)->0.len(),
        forall|j: int| 0 <= j < r@.len() ==> final(storage).spec_terms().contains_key(#[trigger] r@[j]@),
        forall|j: int| 0 <= j < r@.len() ==> cdenotes(final(storage).spec_terms(), #[trigger] r@[j]@, cm_multi(matches@, patterns@)->0[j]),
        final(storage).spec_fixed() == old(storage).spec_fixed(),
        final(storage).spec_rules() == old(storage).spec_rules(),
    decreases rps_height(patterns@), 1nat,
{
    let ghost m = matches@;
    let ghost ps = patterns@;
    let ghost all = cm_multi(m, ps)->0;
    let ghost cur = storage.spec_terms();
    let mut result: Vec<StorageKey> = Vec::new();
    let ghost mut vals: Seq<CVal> = Seq::empty();
    let mut i: usize = 0;
    assert(ps.take(0) =~= Seq::<ResultPattern>::empty());
    while i < patterns.len()
        invariant
            m == matches@,
            ps == patterns@,
            storage.wf(),
            cur.submap_of(storage.spec_terms()),
            cur == old(storage).spec_terms(),
            i <= ps.len(),
            cm_multi(m, ps) == Some(all),
            cvals_keys_held(cur, all),
            cur.len() + cvals_size(all) + 1 < u32::MAX,
            cm_multi(m, ps.take(i as int)) == Some(vals),
            storage.spec_terms().len() == cur.len() + cvals_size(vals),
            result@.len() == vals.len(),
            forall|j: int| 0 <= j < result@.len() ==> storage.spec_terms().contains_key(#[trigger] result@[j]@),
            forall|j: int| 0 <= j < result@.len() ==> cdenotes(storage.spec_terms(), #[trigger] result@[j]@, vals[j]),
            storage.spec_fixed() == old(storage).spec_fixed(),
            storage.spec_rules() == old(storage).spec_rules(),
        decreases ps.len() - i,
    {
        let ghost piece = cm_one(m, ps[i as int])->0;
        proof {
            lemma_cm_multi_prefix(m, ps, i + 1);
            assert(ps.take(i + 1).drop_last() =~= ps.take(i as int));
            assert(ps.take(i + 1).last() == ps[i as int]);
            lemma_cvals_size_append(vals, piece);
            lemma_rps_height(ps, i as int);
            let whole = vals + piece;
            assert forall|j: int| 0 <= j < piece.len() implies cval_keys_held(storage.spec_terms(), #[trigger] piece[j]) by {
                assert(whole[vals.len() + j] == piece[j]);
                assert(whole[vals.len() + j] == all[vals.len() + j]);
                lemma_keys_held_grows(cur, storage.spec_terms(), piece[j]);
            }
        }
        let ghost before = storage.spec_terms();
        let keys = create_match_result_one(storage, matches, &patterns[i]);
        let ghost after = storage.spec_terms();
        let ghost prev = result@;
        let mut j: usize = 0;
        while j < keys.len()
            invariant
                j <= keys@.len(),
                result@ == prev + keys@.subrange(0, j as int),
            decreases keys@.len() - j,
        {
            result.push(keys[j]);
            j = j + 1;
            assert(prev + keys@.subrange(0, j as int) =~= (prev + keys@.subrange(0, j - 1)).push(keys@[j - 1]));
        }
        assert(keys@.subrange(0, keys@.len() as int) == keys@);
        proof {
            assert forall|x: u64| #[trigger] cur.contains_key(x) implies after.contains_key(x) && after[x] == cur[x] by {
                assert(before.contains_key(x));
            }
            assert forall|t: int| 0 <= t < result@.len() implies after.contains_key(#[trigger] result@[t]@)
                && cdenotes(after, result@[t]@, (vals + piece)[t]) by {
                if t < prev.len() {
                    assert(result@[t] == prev[t]);
                    assert(before.contains_key(prev[t]@));
                    assert(cdenotes(before, prev[t]@, vals[t]));
                    lemma_cdenotes_grows(before, after, prev[t]@, vals[t]);
                } else {
                    assert(result@[t] == keys@[t - prev.len()]);
                }
            }
            vals = vals + piece;
        }
        i = i + 1;
    }
    assert(ps.take(ps.len() as int) =~= ps);
    result
}

/// Builds the terms that one result pattern says with the bindings
/// `matches`: an appended pattern once for each branch of its variables.
fn create_match_result_one(storage: &mut Storage, matches: &Bindings, pattern: &ResultPattern) -> (r: Vec<StorageKey>)
    requires
        old(storage).wf(),
        cm_one(matches@, *pattern) is Some,
        cvals_keys_held(old(storage).spec_terms(), cm_one(matches@, *pattern)->0),
        old(storage).has_room(cvals_size(cm_one(matches@, *pattern)->0)),
    ensures
        final(storage).wf(),
        old(storage).spec_terms().submap_of(final(storage).spec_terms()),
        final(storage).spec_terms().len() == old(storage).spec_terms().len() + cvals_size(cm_one(matches@, *pattern)->0),
        r@.len() == cm_one(matches@, *pattern)->0.len(),
        forall|j: int| 0 <= j < r@.len() ==> final(storage).spec_terms().contains_key(#[trigger] r@[j]@),
        forall|j: int| 0 <= j < r@.len() ==> cdenotes(final(storage).spec_terms(), #[trigger] r@[j]@, cm_one(matches@, *pattern)->0[j]),
        final(storage).spec_fixed() == old(storage).spec_fixed(),
        final(storage).spec_rules() == old(storage).spec_rules(),
    decreases rp_height(*pattern), 1nat,
{
    match pattern {
        ResultPattern::Single(s) => {
            let ghost v = cm_single(matches@, **s)->0;
            proof {
                assert(cm_one(matches@, *pattern)->0 =~= seq![v]);
                assert(cvals_size(seq![v]) == cval_size(v)) by {
                    assert(seq![v].drop_last() =~= Seq::<CVal>::empty());
                    assert(seq![v].last() == v);
                    assert(cvals_size(Seq::<CVal>::empty()) == 0);
                }
                assert(seq![v][0] == v);
            }
            let k = create_match_result_single(storage, matches, s);
            let mut r: Vec<StorageKey> = Vec::new();
            r.push(k);
            r
        },
        ResultPattern::Append(a) => {
            let ghost ms = split_spec(narrow(matches@, **a))->0;
            let ghost all = cm_each(ms, **a)->0;
            let ghost cur = storage.spec_terms();
            let narrowed = narrow_to_captured_variables(matches, a);
            let splits = split_branches(&narrowed);
            let ghost sv = splits@.map_values(|b: Bindings| b@);
            assert(sv == ms);
            let mut result: Vec<StorageKey> = Vec::new();
            let ghost mut vals: Seq<CVal> = Seq::empty();
            let mut i: usize = 0;
            assert(ms.take(0) =~= Seq::<Map<Seq<char>, MatchV>>::empty());
            while i < splits.len()
                invariant
                    sv == splits@.map_values(|b: Bindings| b@),
                    sv == ms,
                    rp_height(**a) < rp_height(*pattern),
                    storage.wf(),
                    cur.submap_of(storage.spec_terms()),
                    cur == old(storage).spec_terms(),
                    i <= ms.len(),
                    cm_each(ms, **a) == Some(all),
                    cvals_keys_held(cur, all),
                    cur.len() + cvals_size(all) + 1 < u32::MAX,
                    cm_each(ms.take(i as int), **a) == Some(vals),
                    storage.spec_terms().len() == cur.len() + cvals_size(vals),
                    result@.len() == vals.len(),
                    forall|j: int| 0 <= j < result@.len() ==> storage.spec_terms().contains_key(#[trigger] result@[j]@),
                    forall|j: int| 0 <= j < result@.len() ==> cdenotes(storage.spec_terms(), #[trigger] result@[j]@, vals[j]),
                    storage.spec_fixed() == old(storage).spec_fixed(),
                    storage.spec_rules() == old(storage).spec_rules(),
                decreases ms.len() - i,
            {
                let ghost piece = cm_one(ms[i as int], **a)->0;
                proof {
                    lemma_cm_each_prefix(ms, **a, i + 1);
                    assert(ms.take(i + 1).drop_last() =~= ms.take(i as int));
                    assert(ms.take(i + 1).last() == ms[i as int]);
                    assert(splits@[i as int]@ == ms[i as int]);
                    lemma_cvals_size_append(vals, piece);
                    let whole = vals + piece;
                    assert forall|j: int| 0 <= j < piece.len() implies cval_keys_held(storage.spec_terms(), #[trigger] piece[j]) by {
                        assert(whole[vals.len() + j] == piece[j]);
                        assert(whole[vals.len() + j] == all[vals.len() + j]);
                        lemma_keys_held_grows(cur, storage.spec_terms(), piece[j]);
                    }
                }
                let ghost before = storage.spec_terms();
                let keys = create_match_result_one(storage, &splits[i], a);
                let ghost after = storage.spec_terms();
                let ghost prev = result@;
                let mut j: usize = 0;
                while j < keys.len()
                    invariant
                        j <= keys@.len(),
                        result@ == prev + keys@.subrange(0, j as int),
                    decreases keys@.len() - j,
                {
                    result.push(keys[j]);
                    j = j + 1;
                    assert(prev + keys@.subrange(0, j as int) =~= (prev + keys@.subrange(0, j - 1)).push(keys@[j - 1]));
                }
                assert(keys@.subrange(0, keys@.len() as int) == keys@);
                proof {
                    assert forall|x: u64| #[trigger] cur.contains_key(x) implies after.contains_key(x) && after[x] == cur[x] by {
                        assert(before.contains_key(x));
                    }
                    assert forall|t: int| 0 <= t < result@.len() implies after.contains_key(#[trigger] result@[t]@)
                        && cdenotes(after, result@[t]@, (vals + piece)[t]) by {
                        if t < prev.len() {
                            assert(result@[t] == prev[t]);
                            assert(before.contains_key(prev[t]@));
                            assert(cdenotes(before, prev[t]@, vals[t]));
                            lemma_cdenotes_grows(before, after, prev[t]@, vals[t]);
                        } else {
                            assert(result@[t] == keys@[t - prev.len()]);
                        }
                    }
                    vals = vals + piece;
                }
                i = i + 1;
            }
            assert(ms.take(ms.len() as int) =~= ms);
            result
        },
    }
}

} // verus!
