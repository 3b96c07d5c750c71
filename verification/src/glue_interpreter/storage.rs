use vstd::prelude::*;
use std::collections::{HashMap, HashSet};
use vstd::string::StrSliceExecFns;

use slotmap::{DefaultKey, Key, KeyData, SlotMap};

use crate::glue_interpreter::compound::Compound;
use crate::glue_interpreter::env::Env;
use crate::glue_interpreter::rule::Rule;
use crate::glue_interpreter::symbol::Symbol;

verus! {

broadcast use vstd::std_specs::hash::group_hash_axioms;

/// A slot map of terms under default keys: stable keys for the terms it
/// holds. Verus sees only what the trusted functions below say of it.
#[verifier::external_body]
pub struct TermSlots {
    slots: SlotMap<DefaultKey, Term>,
}

/// What a slot map of terms holds: each present key, by the number
/// `KeyData::as_ffi` gives it, mapped to the view of its term.
pub uninterp spec fn slot_terms(m: TermSlots) -> Map<u64, TermView>;

/// Calls `SlotMap::with_key`, which makes an empty slot map.
#[verifier::external_body]
fn slots_new() -> (r: TermSlots)
    ensures
        slot_terms(r).dom() == Set::<u64>::empty(),
{
    TermSlots { slots: SlotMap::with_key() }
}

/// Calls `SlotMap::insert`, giving the new key by its `as_ffi` number. The
/// source stores the value in a vacant slot or a new one, so no key that is
/// present gets that number, and the value is found under it afterwards.
/// `insert` panics when the map already has `u32::MAX - 1` elements and no
/// vacant slot; `requires` leaves that out.
#[verifier::external_body]
fn slots_insert(m: &mut TermSlots, t: Term) -> (id: u64)
    requires
        slot_terms(*old(m)).dom().finite(),
        slot_terms(*old(m)).len() + 1 < u32::MAX,
    ensures
        !slot_terms(*old(m)).contains_key(id),
        slot_terms(*final(m)) == slot_terms(*old(m)).insert(id, t@),
{
    m.slots.insert(t).data().as_ffi()
}

/// Calls `SlotMap::get` with the key whose `as_ffi` number is `id`. For a
/// present key `KeyData::from_ffi` gives that key back, so its term is
/// found. For a number no present key has, the source may still find a term
/// (a number that was never made by `as_ffi` can stand for a present key);
/// only that `None` means absent is claimed.
#[verifier::external_body]
fn slots_get(m: &TermSlots, id: u64) -> (r: Option<&Term>)
    ensures
        r is None ==> !slot_terms(*m).contains_key(id),
        slot_terms(*m).contains_key(id) ==> r is Some,
        r matches Some(t) ==> (slot_terms(*m).contains_key(id) ==> t@ == slot_terms(*m)[id]),
{
    m.slots.get(KeyData::from_ffi(id).into())
}

/// Calls `SlotMap::get_mut` with the key whose `as_ffi` number is `id` and
/// puts `t` in its place with `std::mem::replace`, giving back the old term.
#[verifier::external_body]
fn slots_replace(m: &mut TermSlots, id: u64, t: Term) -> (old_t: Term)
    requires
        slot_terms(*old(m)).contains_key(id),
    ensures
        old_t@ == slot_terms(*old(m))[id],
        slot_terms(*final(m)) == slot_terms(*old(m)).insert(id, t@),
{
    std::mem::replace(m.slots.get_mut(KeyData::from_ffi(id).into()).unwrap(), t)
}

/// The key of a term in a [`Storage`].
#[derive(Clone, Copy, PartialEq, Eq, Structural, Hash, Debug)]
pub struct StorageKey {
    id: u64,
}

impl View for StorageKey {
    type V = u64;

    closed spec fn view(&self) -> u64 {
        self.id
    }
}

/// What a term is, with its parts by view.
pub enum TermView {
    Symbol(Seq<char>),
    Compound(Seq<StorageKey>),
    Rule(Rule),
    Env(Seq<Rule>),
}

/// A term of the store.
pub enum Term {
    Symbol(Symbol),
    Compound(Compound),
    Rule(Rule),
    Env(Env),
}

impl View for Term {
    type V = TermView;

    open spec fn view(&self) -> TermView {
        match self {
            Term::Symbol(s) => TermView::Symbol(s@),
            Term::Compound(c) => TermView::Compound(c@),
            Term::Rule(r) => TermView::Rule(*r),
            Term::Env(e) => TermView::Env(e@),
        }
    }
}

impl Clone for Term {
    fn clone(&self) -> (r: Self)
        ensures
            r@ == self@,
    {
        match self {
            Term::Symbol(s) => Term::Symbol(s.clone()),
            Term::Compound(c) => Term::Compound(c.clone()),
            Term::Rule(r) => Term::Rule(*r),
            Term::Env(e) => Term::Env(e.clone()),
        }
    }
}

/// Every key that the term `v` names is present in `terms`.
pub open spec fn children_present(terms: Map<u64, TermView>, v: TermView) -> bool {
    match v {
        TermView::Compound(ks) => forall|i: int| 0 <= i < ks.len() ==> terms.contains_key(#[trigger] ks[i]@),
        _ => true,
    }
}

/// No term in `terms` names a key that is absent.
pub open spec fn closed_terms(terms: Map<u64, TermView>) -> bool {
    forall|k: u64| #[trigger] terms.contains_key(k) ==> children_present(terms, terms[k])
}

/// A term as a tree, unfolded to a given depth.
pub enum Tree {
    Symbol(Seq<char>),
    Compound(Seq<Tree>),
    /// A rule or an environment.
    Other,
    /// An absent key, or a compound below the depth unfolded.
    Unknown,
}

/// The terms at `ks`, each unfolded `depth` compounds deep.
pub open spec fn trees(terms: Map<u64, TermView>, ks: Seq<StorageKey>, depth: nat) -> Seq<Tree>
    decreases depth, 1nat,
{
    Seq::new(ks.len(), |i: int| tree(terms, ks[i]@, depth))
}

/// The term at `k`, unfolded `depth` compounds deep.
pub open spec fn tree(terms: Map<u64, TermView>, k: u64, depth: nat) -> Tree
    decreases depth, 0nat,
{
    if !terms.contains_key(k) {
        Tree::Unknown
    } else {
        match terms[k] {
            TermView::Symbol(s) => Tree::Symbol(s),
            TermView::Compound(ks) => if depth == 0 {
                Tree::Unknown
            } else {
                Tree::Compound(trees(terms, ks, (depth - 1) as nat))
            },
            _ => Tree::Other,
        }
    }
}

/// The term at `k` is made of symbols and compounds only, nested less than
/// `depth` compounds deep.
pub open spec fn is_plain(terms: Map<u64, TermView>, k: u64, depth: nat) -> bool
    decreases depth,
{
    terms.contains_key(k) && match terms[k] {
        TermView::Symbol(_) => true,
        TermView::Compound(ks) => depth > 0 && forall|i: int|
            0 <= i < ks.len() ==> is_plain(terms, #[trigger] ks[i]@, (depth - 1) as nat),
        _ => false,
    }
}

/// A depth the plain term at `k` lies within.
pub open spec fn plain_depth(terms: Map<u64, TermView>, k: u64) -> nat {
    choose|d: nat| is_plain(terms, k, d)
}

/// The key reached from `k` by taking, for each index in turn, that element
/// of the compound at hand; `None` when a term on the way is absent or not a
/// compound, or an index is out of its bounds.
pub open spec fn index_path(terms: Map<u64, TermView>, k: u64, idx: Seq<usize>) -> Option<u64>
    decreases idx.len(),
{
    if idx.len() == 0 {
        Some(k)
    } else if terms.contains_key(k) {
        match terms[k] {
            TermView::Compound(ks) => if idx[0] < ks.len() {
                index_path(terms, ks[idx[0] as int]@, idx.drop_first())
            } else {
                None
            },
            _ => None,
        }
    } else {
        None
    }
}

/// Paths through `terms` lead where they led through a smaller map that is
/// closed and holds `k`.
pub proof fn lemma_index_path_grows(
    small: Map<u64, TermView>,
    big: Map<u64, TermView>,
    k: u64,
    idx: Seq<usize>,
)
    requires
        small.submap_of(big),
        closed_terms(small),
        small.contains_key(k),
    ensures
        index_path(big, k, idx) == index_path(small, k, idx),
        index_path(small, k, idx) matches Some(t) ==> small.contains_key(t),
    decreases idx.len(),
{
    if idx.len() > 0 {
        assert(big.contains_key(k));
        assert(big[k] == small[k]);
        if let TermView::Compound(ks) = small[k] {
            if idx[0] < ks.len() {
                assert(children_present(small, small[k]));
                assert(small.contains_key(ks[idx[0] as int]@));
                lemma_index_path_grows(small, big, ks[idx[0] as int]@, idx.drop_first());
            }
        }
    }
}

/// Following the path `p` and then, from where it led, the path `q` is
/// following the two paths joined.
pub proof fn lemma_index_path_concat(terms: Map<u64, TermView>, k: u64, p: Seq<usize>, q: Seq<usize>)
    ensures
        index_path(terms, k, p + q) == match index_path(terms, k, p) {
            Some(m) => index_path(terms, m, q),
            None => None,
        },
    decreases p.len(),
{
    if p.len() == 0 {
        assert(p + q =~= q);
    } else {
        assert((p + q).drop_first() =~= p.drop_first() + q);
        assert((p + q)[0] == p[0]);
        if terms.contains_key(k) {
            if let TermView::Compound(ks) = terms[k] {
                if p[0] < ks.len() {
                    lemma_index_path_concat(terms, ks[p[0] as int]@, p.drop_first(), q);
                }
            }
        }
    }
}

/// A term that [`Storage::insert`] or [`Storage::replace`] writes under a
/// key, [`Storage::get`] reads back there, and every other key keeps the
/// term it held, or keeps holding none.
pub proof fn lemma_write_then_read(before: Map<u64, TermView>, k: u64, t: TermView, other: u64)
    ensures
        before.insert(k, t).contains_key(k),
        before.insert(k, t)[k] == t,
        other != k ==> before.insert(k, t).contains_key(other) == before.contains_key(other),
        other != k && before.contains_key(other) ==> before.insert(k, t)[other] == before[other],
{
}

/// A plain term unfolds to the same tree at every depth past one it lies
/// within.
proof fn lemma_tree_stable(terms: Map<u64, TermView>, k: u64, d: nat, e: nat)
    requires
        is_plain(terms, k, d),
        d <= e,
    ensures
        tree(terms, k, d) == tree(terms, k, e),
        is_plain(terms, k, e),
    decreases d,
{
    if let TermView::Compound(ks) = terms[k] {
        let dd = (d - 1) as nat;
        let ee = (e - 1) as nat;
        assert forall|i: int| 0 <= i < ks.len() implies tree(terms, ks[i]@, dd) == tree(terms, ks[i]@, ee)
            && is_plain(terms, #[trigger] ks[i]@, ee) by {
            lemma_tree_stable(terms, ks[i]@, dd, ee);
        }
        assert(trees(terms, ks, dd) =~= trees(terms, ks, ee));
    }
}

/// A term whose tree equals, at some depth, that of a term plain within a
/// smaller or equal depth is plain within that smaller depth too.
proof fn lemma_tree_equal_plain(terms: Map<u64, TermView>, k1: u64, k2: u64, d: nat, e: nat)
    requires
        is_plain(terms, k1, d),
        d <= e,
        tree(terms, k1, e) == tree(terms, k2, e),
    ensures
        is_plain(terms, k2, d),
    decreases d,
{
    match terms[k1] {
        TermView::Symbol(_) => {
            assert(tree(terms, k2, e) is Symbol);
        },
        TermView::Compound(ks1) => {
            let dd = (d - 1) as nat;
            let ee = (e - 1) as nat;
            assert(tree(terms, k2, e) is Compound);
            let ks2 = terms[k2]->Compound_0;
            let tr1 = trees(terms, ks1, ee);
            let tr2 = trees(terms, ks2, ee);
            assert(tree(terms, k1, e) == Tree::Compound(tr1));
            assert(tree(terms, k2, e) == Tree::Compound(tr2));
            assert(tr1.len() == tr2.len());
            assert forall|i: int| 0 <= i < ks2.len() implies is_plain(terms, #[trigger] ks2[i]@, dd) by {
                assert(tr1[i] == tr2[i]);
                lemma_tree_equal_plain(terms, ks1[i]@, ks2[i]@, dd, ee);
            }
        },
        _ => {},
    }
}

/// What [`Storage::terms_are_equal`] decides of two terms: their trees agree
/// to the depth the first lies within.
pub open spec fn trees_agree(terms: Map<u64, TermView>, k1: u64, k2: u64) -> bool {
    let d = plain_depth(terms, k1);
    tree(terms, k1, d) == tree(terms, k2, d)
}

/// Equality of plain terms as [`Storage::terms_are_equal`] decides it is
/// reflexive and symmetric: a term equals itself, and the two terms may be
/// given in either order.
pub proof fn lemma_terms_equal_reflexive_symmetric(terms: Map<u64, TermView>, k1: u64, k2: u64)
    requires
        exists|d: nat| is_plain(terms, k1, d),
        exists|d: nat| is_plain(terms, k2, d),
    ensures
        trees_agree(terms, k1, k1),
        trees_agree(terms, k1, k2) == trees_agree(terms, k2, k1),
{
    let d1 = plain_depth(terms, k1);
    let d2 = plain_depth(terms, k2);
    assert(is_plain(terms, k1, d1));
    assert(is_plain(terms, k2, d2));
    if trees_agree(terms, k1, k2) {
        lemma_tree_equal_plain(terms, k1, k2, d1, d1);
        lemma_both_plain_agree(terms, k1, k2, d1, d2);
    }
    if trees_agree(terms, k2, k1) {
        lemma_tree_equal_plain(terms, k2, k1, d2, d2);
        lemma_both_plain_agree(terms, k2, k1, d2, d1);
    }
}

/// Two terms both plain within `d1` whose trees agree there, the second also
/// plain within `d2`, agree at `d2` too.
proof fn lemma_both_plain_agree(terms: Map<u64, TermView>, k1: u64, k2: u64, d1: nat, d2: nat)
    requires
        is_plain(terms, k1, d1),
        is_plain(terms, k2, d1),
        is_plain(terms, k2, d2),
        tree(terms, k1, d1) == tree(terms, k2, d1),
    ensures
        tree(terms, k1, d2) == tree(terms, k2, d2),
{
    if d1 <= d2 {
        lemma_tree_stable(terms, k1, d1, d2);
        lemma_tree_stable(terms, k2, d1, d2);
    } else {
        lemma_tree_stable(terms, k2, d2, d1);
        lemma_tree_equal_plain(terms, k2, k1, d2, d1);
        lemma_tree_stable(terms, k1, d2, d1);
    }
}

/// How a reduction of a term ended: at a term no rule changes further, or
/// with no rule that applies.
pub enum ReduceResult {
    ReducedToFixpoint,
    NoWayToReduceFurther,
}

/// Holds the terms of a program: symbols, compounds of other terms by key,
/// rules and environments.
pub struct Storage {
    data: TermSlots,
    len: usize,
    fixed_point_terms: HashSet<u64>,
    env: Env,
}

impl Storage {
    /// The terms held, by key number.
    pub closed spec fn spec_terms(&self) -> Map<u64, TermView> {
        slot_terms(self.data)
    }

    /// The keys marked as reduced to a fixed point.
    pub closed spec fn spec_fixed(&self) -> Set<u64> {
        self.fixed_point_terms@
    }

    /// The rules in effect.
    pub closed spec fn spec_rules(&self) -> Seq<Rule> {
        self.env@
    }

    /// The count of terms kept beside them.
    pub closed spec fn spec_len(&self) -> nat {
        self.len as nat
    }

    /// Finitely many terms, fewer than `u32::MAX` and counted, none naming
    /// an absent key.
    pub open spec fn wf(&self) -> bool {
        &&& self.spec_terms().dom().finite()
        &&& self.spec_terms().len() < u32::MAX
        &&& self.spec_len() == self.spec_terms().len()
        &&& closed_terms(self.spec_terms())
    }

    /// At least `n` more terms can be inserted.
    pub open spec fn has_room(&self, n: nat) -> bool {
        self.spec_terms().len() + n + 1 < u32::MAX
    }

    /// The key `k` holds a term.
    pub open spec fn holds(&self, k: StorageKey) -> bool {
        self.spec_terms().contains_key(k@)
    }

    /// How many terms are held.
    pub fn len(&self) -> (r: usize)
        requires
            self.wf(),
        ensures
            r == self.spec_terms().len(),
    {
        self.len
    }

    /// An empty store with no rules.
    pub fn new() -> (r: Self)
        ensures
            r.wf(),
            r.spec_terms() == Map::<u64, TermView>::empty(),
            r.spec_fixed() == Set::<u64>::empty(),
            r.spec_rules() == Seq::<Rule>::empty(),
    {
        Self { data: slots_new(), len: 0, fixed_point_terms: HashSet::new(), env: Env::new(Vec::new()) }
    }

    /// Adds `rules` behind the rules in effect.
    pub fn add_rules(&mut self, rules: Vec<Rule>)
        ensures
            final(self).spec_rules() == old(self).spec_rules() + rules@,
            final(self).spec_terms() == old(self).spec_terms(),
            final(self).spec_fixed() == old(self).spec_fixed(),
    {
        let mut i: usize = 0;
        while i < rules.len()
            invariant
                i <= rules@.len(),
                self.spec_rules() == old(self).spec_rules() + rules@.subrange(0, i as int),
                self.spec_terms() == old(self).spec_terms(),
                self.spec_fixed() == old(self).spec_fixed(),
            decreases rules@.len() - i,
        {
            self.env.add_rule(rules[i]);
            proof {
                assert(rules@.subrange(0, i + 1) == rules@.subrange(0, i as int).push(rules@[i as int]));
            }
            i = i + 1;
        }
        proof {
            assert(rules@.subrange(0, rules@.len() as int) == rules@);
        }
    }

    /// The term at `k`. For a key that holds a term that term is returned;
    /// `None` means that `k` holds nothing.
    pub fn get(&self, k: StorageKey) -> (r: Option<&Term>)
        ensures
            self.holds(k) ==> (r matches Some(t) && t@ == self.spec_terms()[k@]),
            r is None ==> !self.holds(k),
    {
        slots_get(&self.data, k.id)
    }

    /// The compound at `k`: for a key that holds a term, `Some` exactly
    /// when that term is a compound.
    pub fn get_compound(&self, k: StorageKey) -> (r: Option<&Compound>)
        ensures
            self.holds(k) ==> match self.spec_terms()[k@] {
                TermView::Compound(ks) => r matches Some(c) && c@ == ks,
                _ => r is None,
            },
    {
        match self.get(k) {
            Some(Term::Compound(c)) => Some(c),
            _ => None,
        }
    }

    /// Replaces the term at `k` with `new_term`, returning the old term.
    pub fn replace(&mut self, k: StorageKey, new_term: Term) -> (r: Term)
        requires
            old(self).wf(),
            old(self).holds(k),
            children_present(old(self).spec_terms(), new_term@),
        ensures
            final(self).wf(),
            r@ == old(self).spec_terms()[k@],
            final(self).spec_terms() == old(self).spec_terms().insert(k@, new_term@),
            final(self).spec_fixed() == old(self).spec_fixed(),
            final(self).spec_rules() == old(self).spec_rules(),
    {
        let ghost v = new_term@;
        let r = slots_replace(&mut self.data, k.id, new_term);
        proof {
            let t0 = old(self).spec_terms();
            let t1 = self.spec_terms();
            assert forall|j: u64| #[trigger] t1.contains_key(j) implies children_present(t1, t1[j]) by {
                assert(children_present(t0, t1[j]));
                if let TermView::Compound(ks) = t1[j] {
                    assert forall|i: int| 0 <= i < ks.len() implies t1.contains_key(#[trigger] ks[i]@) by {
                        assert(t0.contains_key(ks[i]@));
                    }
                }
            }
        }
        r
    }

    /// Stores `t` under a new key.
    pub fn insert(&mut self, t: Term) -> (k: StorageKey)
        requires
            old(self).wf(),
            old(self).has_room(1),
            children_present(old(self).spec_terms(), t@),
        ensures
            final(self).wf(),
            !old(self).holds(k),
            final(self).spec_terms() == old(self).spec_terms().insert(k@, t@),
            final(self).spec_fixed() == old(self).spec_fixed(),
            final(self).spec_rules() == old(self).spec_rules(),
    {
        let ghost v = t@;
        let id = slots_insert(&mut self.data, t);
        self.len = self.len + 1;
        proof {
            let t0 = old(self).spec_terms();
            let t1 = self.spec_terms();
            assert forall|j: u64| #[trigger] t1.contains_key(j) implies children_present(t1, t1[j]) by {
                assert(children_present(t0, t1[j]));
                if let TermView::Compound(ks) = t1[j] {
                    assert forall|i: int| 0 <= i < ks.len() implies t1.contains_key(#[trigger] ks[i]@) by {
                        assert(t0.contains_key(ks[i]@));
                    }
                }
            }
        }
        StorageKey { id }
    }

    /// Marks the term at `k` as reduced to a fixed point.
    pub fn mark_as_fixed(&mut self, k: StorageKey)
        ensures
            final(self).spec_fixed() == old(self).spec_fixed().insert(k@),
            final(self).spec_terms() == old(self).spec_terms(),
            final(self).spec_rules() == old(self).spec_rules(),
    {
        self.fixed_point_terms.insert(k.id);
    }

    /// Whether the term at `k` is marked as reduced to a fixed point.
    pub fn is_fixed(&self, k: &StorageKey) -> (r: bool)
        ensures
            r == self.spec_fixed().contains(k@),
    {
        self.fixed_point_terms.contains(&k.id)
    }

    /// Compares the trees of two terms, the first of them made of symbols
    /// and compounds only, to the depth of the first.
    fn terms_equal_within(&self, t1: StorageKey, t2: StorageKey, Ghost(d): Ghost<nat>) -> (r: bool)
        requires
            self.wf(),
            is_plain(self.spec_terms(), t1@, d),
            self.holds(t2),
        ensures
            r == (tree(self.spec_terms(), t1@, d) == tree(self.spec_terms(), t2@, d)),
        decreases d,
    {
        let ghost terms = self.spec_terms();
        match (self.get(t1).unwrap(), self.get(t2).unwrap()) {
            (Term::Symbol(s1), Term::Symbol(s2)) => {
                let r = s1.data().eq(s2.data());
                assert(tree(terms, t1@, d) == Tree::Symbol(s1@));
                assert(tree(terms, t2@, d) == Tree::Symbol(s2@));
                r
            },
            (Term::Compound(c1), Term::Compound(c2)) => {
                let k1 = c1.keys();
                let k2 = c2.keys();
                let ghost dd = (d - 1) as nat;
                let ghost tr1 = trees(terms, k1@, dd);
                let ghost tr2 = trees(terms, k2@, dd);
                assert(terms[t1@] == TermView::Compound(k1@));
                assert(terms[t2@] == TermView::Compound(k2@));
                assert(tree(terms, t1@, d) == Tree::Compound(tr1));
                assert(tree(terms, t2@, d) == Tree::Compound(tr2));
                assert(tree(terms, t1@, d) == Tree::Compound(tr1));
                assert(tree(terms, t2@, d) == Tree::Compound(tr2));
                if k1.len() != k2.len() {
                    assert(tr1.len() != tr2.len());
                    return false;
                }
                let mut i: usize = 0;
                while i < k1.len()
                    invariant
                        self.wf(),
                        terms == self.spec_terms(),
                        k1@.len() == k2@.len(),
                        i <= k1@.len(),
                        d > 0,
                        dd == d - 1,
                        tr1 == trees(terms, k1@, dd),
                        tr2 == trees(terms, k2@, dd),
                        tree(terms, t1@, d) == Tree::Compound(tr1),
                        tree(terms, t2@, d) == Tree::Compound(tr2),
                        forall|j: int| 0 <= j < k1@.len() ==> is_plain(terms, #[trigger] k1@[j]@, dd),
                        forall|j: int| 0 <= j < k2@.len() ==> terms.contains_key(#[trigger] k2@[j]@),
                        forall|j: int| 0 <= j < i ==> tr1[j] == tr2[j],
                    decreases k1@.len() - i,
                {
                    if !self.terms_equal_within(k1[i], k2[i], Ghost(dd)) {
                        assert(tr1[i as int] != tr2[i as int]);
                        return false;
                    }
                    i = i + 1;
                }
                assert(tr1 =~= tr2);
                true
            },
            (Term::Symbol(_), _) => {
                assert(tree(terms, t1@, d) is Symbol);
                false
            },
            (Term::Compound(_), _) => {
                assert(tree(terms, t1@, d) is Compound);
                false
            },
            _ => {
                assert(false);
                false
            },
        }
    }

    /// Whether two terms are equal as trees. The first term is made of
    /// symbols and compounds only and nested finitely deep; the trees are
    /// compared to that depth, below which the first term has nothing.
    pub fn terms_are_equal(&self, t1: StorageKey, t2: StorageKey) -> (r: bool)
        requires
            self.wf(),
            exists|d: nat| is_plain(self.spec_terms(), t1@, d),
            self.holds(t2),
        ensures
            r == trees_agree(self.spec_terms(), t1@, t2@),
    {
        let ghost d = plain_depth(self.spec_terms(), t1@);
        self.terms_equal_within(t1, t2, Ghost(d))
    }
}

/// How often a key occurs in a term: once, or more than once, with the
/// label it is shown with.
#[derive(Clone, Copy, Debug, PartialEq, Eq, Hash)]
pub enum KeyUsageCount {
    Once,
    MoreThanOnce { graph_syntax_label: usize },
}

/// The term at `k` is held and nests compounds less than `d` deep.
pub open spec fn finite_depth(terms: Map<u64, TermView>, k: u64, d: nat) -> bool
    decreases d,
{
    terms.contains_key(k) && match terms[k] {
        TermView::Compound(ks) => d > 0 && forall|i: int| 0 <= i < ks.len() ==> finite_depth(terms, #[trigger] ks[i]@, (d - 1) as nat),
        _ => true,
    }
}

/// One more occurrence of `k` counted in `m`, `c` keys so far occurring
/// more than once: a second occurrence gets the label `c`.
pub open spec fn usage_step(m: Map<u64, KeyUsageCount>, c: nat, k: u64) -> (Map<u64, KeyUsageCount>, nat) {
    if !m.contains_key(k) {
        (m.insert(k, KeyUsageCount::Once), c)
    } else if m[k] is Once {
        (m.insert(k, KeyUsageCount::MoreThanOnce { graph_syntax_label: c as usize }), c + 1)
    } else {
        (m, c)
    }
}

/// The occurrences of the keys of the term at `k` counted into `m`, the
/// term first and then its elements in order.
pub open spec fn usage_after(terms: Map<u64, TermView>, k: u64, d: nat, m: Map<u64, KeyUsageCount>, c: nat) -> (Map<u64, KeyUsageCount>, nat)
    decreases d, 0nat,
{
    let (m1, c1) = usage_step(m, c, k);
    match terms[k] {
        TermView::Compound(ks) => if d > 0 {
            usage_children(terms, ks, (d - 1) as nat, m1, c1)
        } else {
            (m1, c1)
        },
        _ => (m1, c1),
    }
}

/// The occurrences of the keys of the terms at `ks` counted into `m`, in
/// order.
pub open spec fn usage_children(terms: Map<u64, TermView>, ks: Seq<StorageKey>, d: nat, m: Map<u64, KeyUsageCount>, c: nat) -> (Map<u64, KeyUsageCount>, nat)
    decreases d, ks.len() + 1,
{
    if ks.len() == 0 {
        (m, c)
    } else {
        let (m1, c1) = usage_after(terms, ks[0]@, d, m, c);
        usage_children(terms, ks.drop_first(), d, m1, c1)
    }
}

/// The keys counted more than once, with their labels.
pub open spec fn labels_of(m: Map<u64, KeyUsageCount>) -> Map<u64, usize> {
    Map::new(
        |k: u64| m.contains_key(k) && m[k] is MoreThanOnce,
        |k: u64| m[k]->MoreThanOnce_graph_syntax_label,
    )
}

/// The decimal digit `d`.
pub open spec fn digit(d: nat) -> char {
    if d == 0 { '0' } else if d == 1 { '1' } else if d == 2 { '2' } else if d == 3 { '3' } else if d == 4 { '4' }
    else if d == 5 { '5' } else if d == 6 { '6' } else if d == 7 { '7' } else if d == 8 { '8' } else { '9' }
}

/// `n` written in decimal.
pub open spec fn decimal(n: nat) -> Seq<char>
    decreases n,
{
    if n < 10 {
        seq![digit(n)]
    } else {
        decimal(n / 10).push(digit(n % 10))
    }
}

/// How the term at `k` is shown, and the keys labelled once it is: a
/// symbol by its name, a compound by its elements in parentheses separated
/// by spaces, a rule or an environment by a placeholder. In graph syntax a
/// key of `labels` is shown as `#n=` before its term the first time and as
/// `#n` after.
pub open spec fn print_spec(
    terms: Map<u64, TermView>,
    k: u64,
    d: nat,
    labels: Map<u64, usize>,
    labeled: Set<u64>,
    graph: bool,
) -> (Seq<char>, Set<u64>)
    decreases d, 0nat,
{
    if graph && labels.contains_key(k) && labeled.contains(k) {
        (seq!['#'] + decimal(labels[k] as nat), labeled)
    } else {
        let (prefix, l1) = if graph && labels.contains_key(k) {
            (seq!['#'] + decimal(labels[k] as nat) + seq!['='], labeled.insert(k))
        } else {
            (Seq::<char>::empty(), labeled)
        };
        match terms[k] {
            TermView::Symbol(s) => (prefix + s, l1),
            TermView::Compound(ks) => if ks.len() == 0 {
                (prefix + seq!['(', ')'], l1)
            } else if d > 0 {
                let (body, l2) = print_list(terms, ks, (d - 1) as nat, labels, l1, graph);
                (prefix + seq!['('] + body + seq![')'], l2)
            } else {
                (prefix, l1)
            },
            TermView::Rule(_) => (prefix + seq!['<', 'r', 'u', 'l', 'e', '>'], l1),
            TermView::Env(_) => (prefix + seq!['<', 'e', 'n', 'v', '>'], l1),
        }
    }
}

/// How the terms at `ks` are shown, separated by spaces.
pub open spec fn print_list(
    terms: Map<u64, TermView>,
    ks: Seq<StorageKey>,
    d: nat,
    labels: Map<u64, usize>,
    labeled: Set<u64>,
    graph: bool,
) -> (Seq<char>, Set<u64>)
    decreases d, ks.len() + 1,
{
    if ks.len() == 0 {
        (Seq::empty(), labeled)
    } else {
        let (a, l1) = print_spec(terms, ks[0]@, d, labels, labeled, graph);
        if ks.len() == 1 {
            (a, l1)
        } else {
            let (b, l2) = print_list(terms, ks.drop_first(), d, labels, l1, graph);
            (a + seq![' '] + b, l2)
        }
    }
}

/// The decimal digit `d`.
fn digit_char(d: usize) -> (r: char)
    requires
        d < 10,
    ensures
        r == digit(d as nat),
{
    if d == 0 { '0' } else if d == 1 { '1' } else if d == 2 { '2' } else if d == 3 { '3' } else if d == 4 { '4' }
    else if d == 5 { '5' } else if d == 6 { '6' } else if d == 7 { '7' } else if d == 8 { '8' } else { '9' }
}

/// Appends `n` in decimal.
pub(crate) fn push_decimal(out: &mut Vec<char>, n: usize)
    ensures
        final(out)@ == old(out)@ + decimal(n as nat),
    decreases n,
{
    if n >= 10 {
        push_decimal(out, n / 10);
    }
    out.push(digit_char(n % 10));
    assert(out@ =~= old(out)@ + decimal(n as nat));
}

/// Appends `n` in decimal.
fn push_decimal_u64(out: &mut Vec<char>, n: u64)
    ensures
        final(out)@ == old(out)@ + decimal(n as nat),
    decreases n,
{
    if n >= 10 {
        push_decimal_u64(out, n / 10);
    }
    out.push(digit_char((n % 10) as usize));
    assert(out@ =~= old(out)@ + decimal(n as nat));
}

/// Appends the number of the key `k` in decimal.
pub(crate) fn push_key_number(out: &mut Vec<char>, k: StorageKey)
    ensures
        final(out)@ == old(out)@ + decimal(k@ as nat),
{
    push_decimal_u64(out, k.id);
}

/// Appends the characters of `s`.
fn push_all(out: &mut Vec<char>, s: &str)
    ensures
        final(out)@ == old(out)@ + s@,
{
    let n = s.unicode_len();
    let mut i: usize = 0;
    while i < n
        invariant
            n == s@.len(),
            i <= n,
            out@ == old(out)@ + s@.subrange(0, i as int),
        decreases n - i,
    {
        out.push(s.get_char(i));
        i = i + 1;
        assert(old(out)@ + s@.subrange(0, i as int) =~= (old(out)@ + s@.subrange(0, i - 1)).push(s@[i - 1]));
    }
    assert(s@.subrange(0, n as int) =~= s@);
}

proof fn lemma_usage_grows(terms: Map<u64, TermView>, k: u64, d: nat, m: Map<u64, KeyUsageCount>, c: nat)
    ensures
        usage_after(terms, k, d, m, c).1 >= usage_step(m, c, k).1,
        usage_step(m, c, k).1 >= c,
    decreases d, 0nat,
{
    let (m1, c1) = usage_step(m, c, k);
    if let TermView::Compound(ks) = terms[k] {
        if d > 0 {
            lemma_usage_children_grows(terms, ks, (d - 1) as nat, m1, c1);
        }
    }
}

proof fn lemma_usage_children_grows(terms: Map<u64, TermView>, ks: Seq<StorageKey>, d: nat, m: Map<u64, KeyUsageCount>, c: nat)
    ensures
        usage_children(terms, ks, d, m, c).1 >= c,
    decreases d, ks.len() + 1,
{
    if ks.len() > 0 {
        let (m1, c1) = usage_after(terms, ks[0]@, d, m, c);
        lemma_usage_grows(terms, ks[0]@, d, m, c);
        lemma_usage_children_grows(terms, ks.drop_first(), d, m1, c1);
    }
}

/// The keys counted more than once in `m`.
pub open spec fn more_than_once(m: Map<u64, KeyUsageCount>) -> Set<u64> {
    m.dom().filter(|k: u64| m[k] is MoreThanOnce)
}

/// Counting keeps to keys that are held, and `c` is how many keys were
/// counted more than once.
pub open spec fn usage_inv(terms: Map<u64, TermView>, m: Map<u64, KeyUsageCount>, c: nat) -> bool {
    &&& m.dom().subset_of(terms.dom())
    &&& c == more_than_once(m).len()
}

proof fn lemma_step_inv(terms: Map<u64, TermView>, m: Map<u64, KeyUsageCount>, c: nat, k: u64)
    requires
        terms.dom().finite(),
        terms.contains_key(k),
        usage_inv(terms, m, c),
    ensures
        usage_inv(terms, usage_step(m, c, k).0, usage_step(m, c, k).1),
{
    vstd::set_lib::lemma_len_subset(m.dom(), terms.dom());
    vstd::set_lib::lemma_len_subset(more_than_once(m), m.dom());
    let (m1, c1) = usage_step(m, c, k);
    if !m.contains_key(k) {
        assert(more_than_once(m1) =~= more_than_once(m));
    } else if m[k] is Once {
        assert(more_than_once(m1) =~= more_than_once(m).insert(k));
        assert(!more_than_once(m).contains(k));
    }
}

proof fn lemma_usage_inv(terms: Map<u64, TermView>, k: u64, d: nat, m: Map<u64, KeyUsageCount>, c: nat)
    requires
        terms.dom().finite(),
        finite_depth(terms, k, d),
        usage_inv(terms, m, c),
    ensures
        usage_inv(terms, usage_after(terms, k, d, m, c).0, usage_after(terms, k, d, m, c).1),
    decreases d, 0nat,
{
    lemma_step_inv(terms, m, c, k);
    let (m1, c1) = usage_step(m, c, k);
    if let TermView::Compound(ks) = terms[k] {
        lemma_usage_children_inv(terms, ks, (d - 1) as nat, m1, c1);
    }
}

proof fn lemma_usage_children_inv(terms: Map<u64, TermView>, ks: Seq<StorageKey>, d: nat, m: Map<u64, KeyUsageCount>, c: nat)
    requires
        terms.dom().finite(),
        forall|i: int| 0 <= i < ks.len() ==> finite_depth(terms, #[trigger] ks[i]@, d),
        usage_inv(terms, m, c),
    ensures
        usage_inv(terms, usage_children(terms, ks, d, m, c).0, usage_children(terms, ks, d, m, c).1),
    decreases d, ks.len() + 1,
{
    if ks.len() > 0 {
        assert(finite_depth(terms, ks[0]@, d));
        lemma_usage_inv(terms, ks[0]@, d, m, c);
        let (m1, c1) = usage_after(terms, ks[0]@, d, m, c);
        assert forall|i: int| 0 <= i < ks.drop_first().len() implies finite_depth(terms, #[trigger] ks.drop_first()[i]@, d) by {
            assert(ks.drop_first()[i] == ks[i + 1]);
        }
        lemma_usage_children_inv(terms, ks.drop_first(), d, m1, c1);
    }
}

/// Counting the keys of a finite term labels no more keys than are held.
proof fn lemma_usage_bounded(terms: Map<u64, TermView>, k: u64, d: nat)
    requires
        terms.dom().finite(),
        finite_depth(terms, k, d),
    ensures
        usage_after(terms, k, d, Map::empty(), 0).1 <= terms.len(),
{
    assert(more_than_once(Map::<u64, KeyUsageCount>::empty()) =~= Set::<u64>::empty());
    lemma_usage_inv(terms, k, d, Map::empty(), 0);
    let m = usage_after(terms, k, d, Map::empty(), 0).0;
    vstd::set_lib::lemma_len_subset(m.dom(), terms.dom());
    vstd::set_lib::lemma_len_subset(more_than_once(m), m.dom());
}

impl Storage {
    /// Counts into `result` the occurrences of the keys of the term at
    /// `term`, nested less than `d` deep; `labelled` counts the keys that
    /// occur more than once and `labels` holds their labels.
    fn keys_used_more_than_once(
        &self,
        term: StorageKey,
        result: &mut HashMap<u64, KeyUsageCount>,
        labelled: &mut usize,
        labels: &mut HashMap<u64, usize>,
        Ghost(d): Ghost<nat>,
    )
        requires
            self.wf(),
            finite_depth(self.spec_terms(), term@, d),
            usage_after(self.spec_terms(), term@, d, old(result)@, *old(labelled) as nat).1 <= usize::MAX,
            old(labels)@ == labels_of(old(result)@),
        ensures
            (final(result)@, *final(labelled) as nat) == usage_after(self.spec_terms(), term@, d, old(result)@, *old(labelled) as nat),
            final(labels)@ == labels_of(final(result)@),
        decreases d, 0nat,
    {
        let ghost m0 = result@;
        let ghost c0 = *labelled as nat;
        let ghost step = usage_step(m0, c0, term@);
        proof {
            lemma_usage_grows(self.spec_terms(), term@, d, m0, c0);
        }
        match result.get(&term.id) {
            None => {
                result.insert(term.id, KeyUsageCount::Once);
                assert(labels@ =~= labels_of(result@));
            },
            Some(KeyUsageCount::Once) => {
                let label = *labelled;
                result.insert(term.id, KeyUsageCount::MoreThanOnce { graph_syntax_label: label });
                labels.insert(term.id, label);
                *labelled = label + 1;
                assert(labels@ =~= labels_of(result@));
            },
            Some(KeyUsageCount::MoreThanOnce { .. }) => {},
        }
        assert((result@, *labelled as nat) == step);
        if let Term::Compound(c) = self.get(term).unwrap() {
            let keys = c.keys();
            proof {
                assert(children_present(self.spec_terms(), self.spec_terms()[term@]));
            }
            let mut i: usize = 0;
            assert(keys@.skip(0) =~= keys@);
            while i < keys.len()
                invariant
                    self.wf(),
                    i <= keys@.len(),
                    d > 0,
                    forall|j: int| 0 <= j < keys@.len() ==> finite_depth(self.spec_terms(), #[trigger] keys@[j]@, (d - 1) as nat),
                    usage_children(self.spec_terms(), keys@.skip(i as int), (d - 1) as nat, result@, *labelled as nat)
                        == usage_after(self.spec_terms(), term@, d, m0, c0),
                    usage_after(self.spec_terms(), term@, d, m0, c0).1 <= usize::MAX,
                    labels@ == labels_of(result@),
                decreases keys@.len() - i,
            {
                let ghost rest = keys@.skip(i as int);
                assert(rest[0] == keys@[i as int]);
                assert(rest.drop_first() =~= keys@.skip(i + 1));
                proof {
                    let (m1, c1) = usage_after(self.spec_terms(), keys@[i as int]@, (d - 1) as nat, result@, *labelled as nat);
                    lemma_usage_children_grows(self.spec_terms(), keys@.skip(i + 1), (d - 1) as nat, m1, c1);
                }
                self.keys_used_more_than_once(keys[i], result, labelled, labels, Ghost((d - 1) as nat));
                i = i + 1;
            }
            assert(keys@.skip(i as int).len() == 0);
        }
    }

    /// Whether the term at `key` nests compounds less than `limit` deep; a
    /// term that passes can be printed.
    pub fn nests_within(&self, key: StorageKey, limit: usize) -> (r: bool)
        requires
            self.wf(),
            self.holds(key),
        ensures
            r == finite_depth(self.spec_terms(), key@, limit as nat),
        decreases limit,
    {
        match self.get(key) {
            None => false,
            Some(Term::Compound(c)) => {
                if limit == 0 {
                    return false;
                }
                let keys = c.keys();
                let ghost terms = self.spec_terms();
                proof {
                    assert(terms[key@] == TermView::Compound(keys@));
                    assert(children_present(terms, terms[key@]));
                    assert forall|j: int| 0 <= j < keys@.len() implies terms.contains_key(#[trigger] keys@[j]@) by {
                        if let TermView::Compound(ks) = terms[key@] {
                            assert(ks == keys@);
                            assert(terms.contains_key(ks[j]@));
                        }
                    }
                }
                let mut i: usize = 0;
                while i < keys.len()
                    invariant
                        self.wf(),
                        terms == self.spec_terms(),
                        limit > 0,
                        terms.contains_key(key@),
                        terms[key@] == TermView::Compound(keys@),
                        forall|j: int| 0 <= j < keys@.len() ==> terms.contains_key(#[trigger] keys@[j]@),
                        i <= keys@.len(),
                        forall|j: int| 0 <= j < i ==> finite_depth(terms, #[trigger] keys@[j]@, (limit - 1) as nat),
                    decreases keys@.len() - i,
                {
                    if !self.nests_within(keys[i], limit - 1) {
                        return false;
                    }
                    i = i + 1;
                }
                true
            },
            Some(_) => true,
        }
    }

    /// The keys of the term at `term` that occur in it more than once, each
    /// with its label: the labels number them in the order their second
    /// occurrences are met, the term before its elements.
    pub fn label_keys_used_more_than_once(&self, term: StorageKey) -> (r: HashMap<u64, usize>)
        requires
            self.wf(),
            exists|d: nat| finite_depth(self.spec_terms(), term@, d),
        ensures
            r@ == labels_of(usage_after(self.spec_terms(), term@, depth_of(self.spec_terms(), term@), Map::empty(), 0).0),
    {
        let ghost d = depth_of(self.spec_terms(), term@);
        proof {
            lemma_usage_bounded(self.spec_terms(), term@, d);
        }
        let mut usage: HashMap<u64, KeyUsageCount> = HashMap::new();
        let mut labelled: usize = 0;
        let mut labels: HashMap<u64, usize> = HashMap::new();
        assert(usage@ =~= Map::<u64, KeyUsageCount>::empty());
        assert(labels@ =~= labels_of(usage@));
        self.keys_used_more_than_once(term, &mut usage, &mut labelled, &mut labels, Ghost(d));
        labels
    }
}

impl Storage {
    /// Appends how the term at `key` is shown, as [`print_spec`] says.
    fn print_within(
        &self,
        key: StorageKey,
        labels: &HashMap<u64, usize>,
        already_labeled: &mut HashSet<u64>,
        graph_syntax: bool,
        out: &mut Vec<char>,
        Ghost(d): Ghost<nat>,
    )
        requires
            self.wf(),
            finite_depth(self.spec_terms(), key@, d),
        ensures
            ({
                let (text, l) = print_spec(self.spec_terms(), key@, d, labels@, old(already_labeled)@, graph_syntax);
                &&& final(out)@ == old(out)@ + text
                &&& final(already_labeled)@ == l
            }),
        decreases d, 1nat,
    {
        let ghost terms = self.spec_terms();
        let ghost o0 = out@;
        if graph_syntax {
            match labels.get(&key.id) {
                Some(graph_syntax_label) => {
                    if already_labeled.contains(&key.id) {
                        out.push('#');
                        push_decimal(out, *graph_syntax_label);
                        assert(out@ =~= o0 + (seq!['#'] + decimal(labels@[key@] as nat)));
                        return;
                    } else {
                        out.push('#');
                        push_decimal(out, *graph_syntax_label);
                        out.push('=');
                        already_labeled.insert(key.id);
                        assert(out@ =~= o0 + (seq!['#'] + decimal(labels@[key@] as nat) + seq!['=']));
                    }
                },
                None => {},
            }
        }
        let ghost o1 = out@;
        assert(o1 == o0 + o1.skip(o0.len() as int));
        self.print_term_body(key, labels, already_labeled, graph_syntax, out, Ghost(d));
    }

    /// Appends how the term at `key` is shown, without its label.
    fn print_term_body(
        &self,
        key: StorageKey,
        labels: &HashMap<u64, usize>,
        already_labeled: &mut HashSet<u64>,
        graph_syntax: bool,
        out: &mut Vec<char>,
        Ghost(d): Ghost<nat>,
    )
        requires
            self.wf(),
            finite_depth(self.spec_terms(), key@, d),
        ensures
            ({
                let terms = self.spec_terms();
                match terms[key@] {
                    TermView::Symbol(s) => final(out)@ == old(out)@ + s && final(already_labeled)@ == old(already_labeled)@,
                    TermView::Compound(ks) => if ks.len() == 0 {
                        final(out)@ == old(out)@ + seq!['(', ')'] && final(already_labeled)@ == old(already_labeled)@
                    } else {
                        let (body, l2) = print_list(terms, ks, (d - 1) as nat, labels@, old(already_labeled)@, graph_syntax);
                        final(out)@ == old(out)@ + seq!['('] + body + seq![')'] && final(already_labeled)@ == l2
                    },
                    TermView::Rule(_) => final(out)@ == old(out)@ + seq!['<', 'r', 'u', 'l', 'e', '>']
                        && final(already_labeled)@ == old(already_labeled)@,
                    TermView::Env(_) => final(out)@ == old(out)@ + seq!['<', 'e', 'n', 'v', '>']
                        && final(already_labeled)@ == old(already_labeled)@,
                }
            }),
        decreases d, 0nat,
    {
        let ghost terms = self.spec_terms();
        match self.get(key).unwrap() {
            Term::Symbol(s) => {
                push_all(out, s.data().as_str());
            },
            Term::Compound(c) => {
                let keys = c.keys();
                proof {
                    assert(children_present(terms, terms[key@]));
                }
                if keys.len() == 0 {
                    out.push('(');
                    out.push(')');
                    assert(out@ =~= old(out)@ + seq!['(', ')']);
                } else {
                    let ghost o0 = out@;
                    out.push('(');
                    self.print_list_within(keys, labels, already_labeled, graph_syntax, out, Ghost((d - 1) as nat));
                    let ghost o1 = out@;
                    out.push(')');
                    assert(out@ =~= o0 + seq!['('] + o1.skip(o0.len() + 1int) + seq![')']);
                }
            },
            Term::Rule(_) => {
                push_all(out, "<rule>");
                proof {
                    reveal_strlit("<rule>");
                }
                assert(out@ =~= old(out)@ + seq!['<', 'r', 'u', 'l', 'e', '>']);
            },
            Term::Env(_) => {
                push_all(out, "<env>");
                proof {
                    reveal_strlit("<env>");
                }
                assert(out@ =~= old(out)@ + seq!['<', 'e', 'n', 'v', '>']);
            },
        }
    }

    /// Appends how the terms at `keys` are shown, separated by spaces.
    fn print_list_within(
        &self,
        keys: &[StorageKey],
        labels: &HashMap<u64, usize>,
        already_labeled: &mut HashSet<u64>,
        graph_syntax: bool,
        out: &mut Vec<char>,
        Ghost(d): Ghost<nat>,
    )
        requires
            self.wf(),
            forall|j: int| 0 <= j < keys@.len() ==> finite_depth(self.spec_terms(), #[trigger] keys@[j]@, d),
        ensures
            ({
                let (text, l) = print_list(self.spec_terms(), keys@, d, labels@, old(already_labeled)@, graph_syntax);
                &&& final(out)@ == old(out)@ + text
                &&& final(already_labeled)@ == l
            }),
        decreases d, keys@.len() + 2,
    {
        if keys.len() == 0 {
            assert(out@ =~= old(out)@ + Seq::<char>::empty());
            return;
        }
        self.print_within(keys[0], labels, already_labeled, graph_syntax, out, Ghost(d));
        if keys.len() == 1 {
            return;
        }
        let ghost o1 = out@;
        out.push(' ');
        let rest = vstd::slice::slice_subrange(keys, 1, keys.len());
        assert(rest@ =~= keys@.drop_first());
        self.print_list_within(rest, labels, already_labeled, graph_syntax, out, Ghost(d));
        assert(out@ =~= o1 + seq![' '] + out@.skip(o1.len() + 1int));
    }
}

/// A depth the term at `k` lies within.
pub open spec fn depth_of(terms: Map<u64, TermView>, k: u64) -> nat {
    choose|d: nat| finite_depth(terms, k, d)
}

impl Storage {
    /// Appends to `out` how the term at `key` is shown, as [`print_spec`]
    /// says; in graph syntax the keys of `labels` get labels, and
    /// `already_labeled` records those shown so far.
    pub fn print(
        &self,
        key: StorageKey,
        labels: &HashMap<u64, usize>,
        already_labeled: &mut HashSet<u64>,
        graph_syntax: bool,
        out: &mut Vec<char>,
    )
        requires
            self.wf(),
            exists|d: nat| finite_depth(self.spec_terms(), key@, d),
        ensures
            ({
                let (text, l) = print_spec(
                    self.spec_terms(),
                    key@,
                    depth_of(self.spec_terms(), key@),
                    labels@,
                    old(already_labeled)@,
                    graph_syntax,
                );
                &&& final(out)@ == old(out)@ + text
                &&& final(already_labeled)@ == l
            }),
    {
        let ghost d = depth_of(self.spec_terms(), key@);
        self.print_within(key, labels, already_labeled, graph_syntax, out, Ghost(d));
    }

    /// The line that shows the term at `key`: in graph syntax each key that
    /// occurs in it more than once is labelled at its first occurrence and
    /// referred to by its label after.
    pub fn println(&self, key: StorageKey, graph_syntax: bool) -> (r: Vec<char>)
        requires
            self.wf(),
            exists|d: nat| finite_depth(self.spec_terms(), key@, d),
        ensures
            ({
                let terms = self.spec_terms();
                let d = depth_of(terms, key@);
                let labels = labels_of(usage_after(terms, key@, d, Map::empty(), 0).0);
                r@ == print_spec(terms, key@, d, labels, Set::empty(), graph_syntax).0.push('\n')
            }),
    {
        let labels = self.label_keys_used_more_than_once(key);
        let mut already_labeled: HashSet<u64> = HashSet::new();
        let mut out: Vec<char> = Vec::new();
        assert(already_labeled@ =~= Set::<u64>::empty());
        self.print(key, &labels, &mut already_labeled, graph_syntax, &mut out);
        assert(out@ =~= Seq::<char>::empty() + print_spec(self.spec_terms(), key@, depth_of(self.spec_terms(), key@), labels@, Set::empty(), graph_syntax).0);
        out.push('\n');
        out
    }
}

} // verus!
