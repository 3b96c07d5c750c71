use vstd::prelude::*;
use std::collections::{HashMap, HashSet};

verus! {

broadcast use vstd::std_specs::hash::group_hash_axioms;

/// A variable of the target language.
#[derive(Clone, Copy, Debug, PartialEq, Eq, Hash)]
pub struct LangNVar(pub usize);

impl From<LangNVar> for usize {
    fn from(value: LangNVar) -> (r: Self) {
        value.0
    }
}

impl vstd::std_specs::convert::FromSpecImpl<LangNVar> for usize {
    open spec fn obeys_from_spec() -> bool {
        true
    }

    open spec fn from_spec(v: LangNVar) -> usize {
        v.0
    }
}

/// A variable of the source language.
#[derive(Clone, Copy, Debug, PartialEq, Eq, Hash)]
pub struct LangNPlusOneVar(pub usize);

impl LangNPlusOneVar {
    pub fn new(v: usize) -> (r: Self)
        ensures
            r.0 == v,
    {
        Self(v)
    }
}

impl From<LangNPlusOneVar> for usize {
    fn from(value: LangNPlusOneVar) -> (r: Self) {
        value.0
    }
}

impl vstd::std_specs::convert::FromSpecImpl<LangNPlusOneVar> for usize {
    open spec fn obeys_from_spec() -> bool {
        true
    }

    open spec fn from_spec(v: LangNPlusOneVar) -> usize {
        v.0
    }
}

/// An open scope, by its depth.
#[derive(Clone, Copy, Debug, PartialEq, Eq, Hash)]
pub struct Scope(pub usize);

/// Hands out target variables: fresh ones in scopes, which give them back
/// when they close, and one for each source variable, kept while the scope
/// it was made in is open.
#[derive(Debug)]
pub struct Varmap {
    generated_vars: HashSet<usize>,
    source_to_generated_map: HashMap<usize, usize>,
    scope_stack: Vec<Vec<usize>>,
    scope_sources: Vec<Vec<usize>>,
}

impl Varmap {
    /// The variables in use.
    pub closed spec fn generated(&self) -> Set<usize> {
        self.generated_vars@
    }

    /// The variable given to each source variable.
    pub closed spec fn sources(&self) -> Map<usize, usize> {
        self.source_to_generated_map@
    }

    /// The variables made in each open scope, outermost first.
    pub closed spec fn scopes(&self) -> Seq<Seq<usize>> {
        self.scope_stack@.map_values(|s: Vec<usize>| s@)
    }

    /// The source variables given a variable in each open scope.
    pub closed spec fn scope_sources(&self) -> Seq<Seq<usize>> {
        self.scope_sources@.map_values(|s: Vec<usize>| s@)
    }

    /// The variables in use are finitely many, and the variables of the open
    /// scopes are in use, each made once.
    pub open spec fn wf(&self) -> bool {
        &&& self.scope_sources().len() == self.scopes().len()
        &&& self.generated().finite()
        &&& forall|j: int, t: int| 0 <= j < self.scopes().len() && 0 <= t < self.scopes()[j].len()
            ==> self.generated().contains(#[trigger] self.scopes()[j][t])
        &&& forall|j1: int, t1: int, j2: int, t2: int|
            0 <= j1 < self.scopes().len() && 0 <= t1 < self.scopes()[j1].len()
            && 0 <= j2 < self.scopes().len() && 0 <= t2 < self.scopes()[j2].len()
            && (j1 != j2 || t1 != t2)
            ==> #[trigger] self.scopes()[j1][t1] != #[trigger] self.scopes()[j2][t2]
    }

    /// `scope` is the innermost open scope.
    pub open spec fn is_current(&self, scope: Scope) -> bool {
        scope.0 + 1 == self.scopes().len()
    }

    /// Opens a scope inside the current one.
    pub fn enter_scope(&mut self) -> (r: Scope)
        requires
            old(self).wf(),
        ensures
            final(self).wf(),
            r.0 == old(self).scopes().len(),
            final(self).scopes() == old(self).scopes().push(Seq::empty()),
            final(self).scope_sources() == old(self).scope_sources().push(Seq::empty()),
            final(self).generated() == old(self).generated(),
            final(self).sources() == old(self).sources(),
            vstate(*final(self)) == vs_enter(vstate(*old(self))),
    {
        let scope = Scope(self.scope_stack.len());
        self.scope_stack.push(Vec::new());
        self.scope_sources.push(Vec::new());
        assert(self.scopes() =~= old(self).scopes().push(Seq::empty()));
        assert(self.scope_sources() =~= old(self).scope_sources().push(Seq::empty()));
        scope
    }

    /// Closes the innermost scope, giving back its variables.
    pub fn exit_scope(&mut self, scope: Scope)
        requires
            old(self).wf(),
            old(self).is_current(scope),
        ensures
            final(self).wf(),
            final(self).scopes() == old(self).scopes().drop_last(),
            final(self).generated() == old(self).generated().difference(old(self).scopes().last().to_set()),
            final(self).sources() == old(self).sources().remove_keys(old(self).scope_sources().last().to_set()),
            final(self).scope_sources() == old(self).scope_sources().drop_last(),
            vstate(*final(self)) == vs_exit(vstate(*old(self))),
    {
        self.assert_scope_invariants(&scope);
        let ghost scopes0 = self.scopes();
        let ghost gen0 = self.generated();
        let ghost srcs0 = self.scope_sources();
        let ghost map0 = self.sources();
        let scoped_sources = self.scope_sources.pop().unwrap();
        assert(self.scope_sources() =~= srcs0.drop_last());
        let ghost lastsrc = scoped_sources@;
        assert(lastsrc == srcs0.last());
        let mut k: usize = 0;
        while k < scoped_sources.len()
            invariant
                k <= lastsrc.len(),
                lastsrc == scoped_sources@,
                self.sources() == map0.remove_keys(lastsrc.take(k as int).to_set()),
                self.generated() == gen0,
                self.scopes() == scopes0,
                self.scope_sources() == srcs0.drop_last(),
            decreases lastsrc.len() - k,
        {
            let src = scoped_sources[k];
            self.source_to_generated_map.remove(&src);
            proof {
                assert(lastsrc.take(k + 1).to_set() =~= lastsrc.take(k as int).to_set().insert(src)) by {
                    assert forall|x: usize| lastsrc.take(k + 1).to_set().contains(x) implies lastsrc.take(k as int).to_set().insert(src).contains(x) by {
                        let t = choose|t: int| 0 <= t < k + 1 && #[trigger] lastsrc.take(k + 1)[t] == x;
                        if t < k {
                            assert(lastsrc.take(k as int)[t] == x);
                        }
                    }
                    assert forall|x: usize| lastsrc.take(k as int).to_set().insert(src).contains(x) implies lastsrc.take(k + 1).to_set().contains(x) by {
                        if x == src {
                            assert(lastsrc.take(k + 1)[k as int] == x);
                        } else {
                            let t = choose|t: int| 0 <= t < k && #[trigger] lastsrc.take(k as int)[t] == x;
                            assert(lastsrc.take(k + 1)[t] == x);
                        }
                    }
                }
                assert(self.sources() =~= map0.remove_keys(lastsrc.take(k + 1).to_set()));
            }
            k = k + 1;
        }
        assert(lastsrc.take(lastsrc.len() as int) =~= lastsrc);
        let scoped_vars = self.scope_stack.pop().unwrap();
        assert(self.scopes() =~= scopes0.drop_last());
        let ghost last = scoped_vars@;
        assert(last == scopes0.last());
        let mut i: usize = 0;
        while i < scoped_vars.len()
            invariant
                i <= last.len(),
                last == scoped_vars@,
                last == scopes0.last(),
                scopes0.len() > 0,
                self.scopes() == scopes0.drop_last(),
                gen0.finite(),
                forall|t: int| 0 <= t < last.len() ==> gen0.contains(#[trigger] last[t]),
                forall|t1: int, t2: int| 0 <= t1 < t2 < last.len() ==> last[t1] != last[t2],
                self.generated() == gen0.difference(last.take(i as int).to_set()),
                self.sources() == old(self).sources().remove_keys(old(self).scope_sources().last().to_set()),
                self.scope_sources() == old(self).scope_sources().drop_last(),
            decreases last.len() - i,
        {
            let var = scoped_vars[i];
            proof {
                assert(last.take(i as int).to_set().contains(var) ==> false) by {
                    if last.take(i as int).to_set().contains(var) {
                        let t = choose|t: int| 0 <= t < i && #[trigger] last.take(i as int)[t] == var;
                        assert(last[t] == last[i as int]);
                    }
                }
            }
            assert(self.generated_vars@.contains(var));
            self.generated_vars.remove(&var);
            proof {
                assert(last.take(i + 1).to_set() =~= last.take(i as int).to_set().insert(var)) by {
                    assert forall|x: usize| last.take(i + 1).to_set().contains(x) implies last.take(i as int).to_set().insert(var).contains(x) by {
                        let t = choose|t: int| 0 <= t < i + 1 && #[trigger] last.take(i + 1)[t] == x;
                        if t < i {
                            assert(last.take(i as int)[t] == x);
                        }
                    }
                    assert forall|x: usize| last.take(i as int).to_set().insert(var).contains(x) implies last.take(i + 1).to_set().contains(x) by {
                        if x == var {
                            assert(last.take(i + 1)[i as int] == x);
                        } else {
                            let t = choose|t: int| 0 <= t < i && #[trigger] last.take(i as int)[t] == x;
                            assert(last.take(i + 1)[t] == x);
                        }
                    }
                }
                assert(self.generated() =~= gen0.difference(last.take(i + 1).to_set()));
            }
            i = i + 1;
        }
        assert(last.take(last.len() as int) =~= last);
        proof {
            assert forall|j: int, t: int| 0 <= j < self.scopes().len() && 0 <= t < self.scopes()[j].len()
                implies self.generated().contains(#[trigger] self.scopes()[j][t]) by {
                assert(self.scopes()[j] == scopes0[j]);
                let x = scopes0[j][t];
                if last.to_set().contains(x) {
                    let t2 = choose|t2: int| 0 <= t2 < last.len() && #[trigger] last[t2] == x;
                    assert(scopes0[scopes0.len() - 1][t2] == x);
                }
            }
            assert forall|j1: int, t1: int, j2: int, t2: int|
                0 <= j1 < self.scopes().len() && 0 <= t1 < self.scopes()[j1].len()
                && 0 <= j2 < self.scopes().len() && 0 <= t2 < self.scopes()[j2].len()
                && (j1 != j2 || t1 != t2)
                implies #[trigger] self.scopes()[j1][t1] != #[trigger] self.scopes()[j2][t2] by {
                assert(self.scopes()[j1] == scopes0[j1]);
                assert(self.scopes()[j2] == scopes0[j2]);
                assert(scopes0[j1][t1] != scopes0[j2][t2]);
            }
        }
    }

    /// How many variables are in use.
    pub fn in_use(&self) -> (r: usize)
        ensures
            r == self.generated().len(),
    {
        self.generated_vars.len()
    }

    /// A fresh variable in the innermost scope: the first from the number
    /// of variables in use up that is not in use. The search counts up from
    /// that number, so fewer than half of all `usize` values may be in use.
    pub fn generate_var(&mut self, scope: &Scope) -> (r: LangNVar)
        requires
            old(self).wf(),
            old(self).is_current(*scope),
            old(self).generated().len() < usize::MAX / 2,
        ensures
            final(self).wf(),
            !old(self).generated().contains(r.0),
            r.0 >= old(self).generated().len(),
            forall|x: usize| old(self).generated().len() <= x < r.0 ==> old(self).generated().contains(x),
            final(self).generated() == old(self).generated().insert(r.0),
            final(self).scopes() == old(self).scopes().update(
                old(self).scopes().len() - 1,
                old(self).scopes().last().push(r.0),
            ),
            final(self).sources() == old(self).sources(),
            final(self).scope_sources() == old(self).scope_sources(),
            (r.0, vstate(*final(self))) == vs_fresh(vstate(*old(self))),
            run_op(vstate(*old(self)), ScopeOp::Fresh) == Some(vstate(*final(self))),
    {
        self.assert_scope_invariants(scope);
        let ghost g = self.generated();
        let start = self.generated_vars.len();
        let mut var = start;
        let ghost mut seen: Set<usize> = Set::empty();
        while self.generated_vars.contains(&var)
            invariant
                g == self.generated_vars@,
                g.len() < usize::MAX / 2,
                g.finite(),
                start == g.len(),
                start <= var,
                var - start <= g.len(),
                seen.finite(),
                seen.len() == var - start,
                seen.subset_of(g),
                forall|x: usize| start <= x < var ==> g.contains(x),
                forall|x: usize| #[trigger] seen.contains(x) ==> start <= x < var,
            decreases 2 * g.len() - var,
        {
            proof {
                assert(!seen.contains(var));
                let s2 = seen.insert(var);
                assert(s2.subset_of(g));
                vstd::set_lib::lemma_len_subset(s2, g);
                seen = s2;
            }
            var = var + 1;
        }
        self.generated_vars.insert(var);
        let ghost scopes0 = self.scopes();
        let mut top = self.scope_stack.pop().unwrap();
        top.push(var);
        self.scope_stack.push(top);
        proof {
            assert(self.scopes() =~= scopes0.update(scopes0.len() - 1, scopes0.last().push(var)));
            assert forall|j: int, t: int| 0 <= j < self.scopes().len() && 0 <= t < self.scopes()[j].len()
                implies self.generated().contains(#[trigger] self.scopes()[j][t]) by {
                if !(j == scopes0.len() - 1 && t == scopes0[j].len()) {
                    assert(self.scopes()[j][t] == scopes0[j][t]);
                }
            }
            assert forall|j1: int, t1: int, j2: int, t2: int|
                0 <= j1 < self.scopes().len() && 0 <= t1 < self.scopes()[j1].len()
                && 0 <= j2 < self.scopes().len() && 0 <= t2 < self.scopes()[j2].len()
                && (j1 != j2 || t1 != t2)
                implies #[trigger] self.scopes()[j1][t1] != #[trigger] self.scopes()[j2][t2] by {
                let last = scopes0.len() - 1;
                let n = scopes0[last].len() as int;
                if j1 == last && t1 == n {
                    assert(self.scopes()[j2][t2] == scopes0[j2][t2]);
                } else if j2 == last && t2 == n {
                    assert(self.scopes()[j1][t1] == scopes0[j1][t1]);
                } else {
                    assert(self.scopes()[j1][t1] == scopes0[j1][t1]);
                    assert(self.scopes()[j2][t2] == scopes0[j2][t2]);
                }
            }
        }
        proof {
            lemma_first_unused(old(self).generated(), var);
        }
        LangNVar(var)
    }

    /// The variable of the source variable `src`: the one it was given, or
    /// a fresh one in the innermost scope, given to it from now on.
    pub fn get_source_variable(&mut self, src: LangNPlusOneVar, scope: &Scope) -> (r: LangNVar)
        requires
            old(self).wf(),
            old(self).sources().contains_key(src.0) || old(self).is_current(*scope),
            old(self).generated().len() < usize::MAX / 2,
        ensures
            final(self).wf(),
            old(self).sources().contains_key(src.0) ==> {
                &&& r.0 == old(self).sources()[src.0]
                &&& final(self).generated() == old(self).generated()
                &&& final(self).scopes() == old(self).scopes()
                &&& final(self).sources() == old(self).sources()
                &&& final(self).scope_sources() == old(self).scope_sources()
            },
            !old(self).sources().contains_key(src.0) ==> {
                &&& !old(self).generated().contains(r.0)
                &&& r.0 >= old(self).generated().len()
                &&& forall|x: usize| old(self).generated().len() <= x < r.0 ==> old(self).generated().contains(x)
                &&& final(self).generated() == old(self).generated().insert(r.0)
                &&& final(self).scopes() == old(self).scopes().update(
                    old(self).scopes().len() - 1,
                    old(self).scopes().last().push(r.0),
                )
                &&& final(self).sources() == old(self).sources().insert(src.0, r.0)
                &&& final(self).scope_sources() == old(self).scope_sources().update(
                    old(self).scope_sources().len() - 1,
                    old(self).scope_sources().last().push(src.0),
                )
            },
            (r.0, vstate(*final(self))) == vs_source(vstate(*old(self)), src.0),
            run_op(vstate(*old(self)), ScopeOp::Source(src.0)) == Some(vstate(*final(self))),
    {
        if self.source_to_generated_map.contains_key(&src.0) {
            LangNVar(*self.source_to_generated_map.get(&src.0).unwrap())
        } else {
            let r = self.generate_var_from_source(src, scope);
            proof {
                lemma_first_unused(old(self).generated(), r.0);
                let (x, v1) = vs_fresh(vstate(*old(self)));
                assert(x == r.0);
                assert(vstate(*self) == VarState {
                    generated: v1.generated,
                    sources: v1.sources.insert(src.0, x),
                    scopes: v1.scopes,
                    scope_sources: v1.scope_sources.update(v1.scope_sources.len() - 1, v1.scope_sources.last().push(src.0)),
                });
            }
            r
        }
    }

    /// A fresh variable in the innermost scope, given to the source
    /// variable `src`, which had none.
    fn generate_var_from_source(&mut self, src: LangNPlusOneVar, scope: &Scope) -> (r: LangNVar)
        requires
            old(self).wf(),
            old(self).is_current(*scope),
            old(self).generated().len() < usize::MAX / 2,
            !old(self).sources().contains_key(src.0),
        ensures
            final(self).wf(),
            !old(self).generated().contains(r.0),
            r.0 >= old(self).generated().len(),
            forall|x: usize| old(self).generated().len() <= x < r.0 ==> old(self).generated().contains(x),
            final(self).generated() == old(self).generated().insert(r.0),
            final(self).scopes() == old(self).scopes().update(
                old(self).scopes().len() - 1,
                old(self).scopes().last().push(r.0),
            ),
            final(self).sources() == old(self).sources().insert(src.0, r.0),
            final(self).scope_sources() == old(self).scope_sources().update(
                old(self).scope_sources().len() - 1,
                old(self).scope_sources().last().push(src.0),
            ),
    {
        let var = self.generate_var(scope);
        self.source_to_generated_map.insert(src.0, var.0);
        let ghost ss = self.scope_sources();
        let mut top = self.scope_sources.pop().unwrap();
        top.push(src.0);
        self.scope_sources.push(top);
        assert(self.scope_sources() =~= ss.update(ss.len() - 1, ss.last().push(src.0)));
        var
    }

    /// Only the innermost scope may be worked in; each caller shows that
    /// `scope` is it.
    fn assert_scope_invariants(&self, scope: &Scope)
        requires
            self.is_current(*scope),
    {
    }
}

/// The variables the compiler keeps track of: those in use, the one given
/// to each source variable, and those made and source variables given one
/// in each open scope.
pub struct VarState {
    pub generated: Set<usize>,
    pub sources: Map<usize, usize>,
    pub scopes: Seq<Seq<usize>>,
    pub scope_sources: Seq<Seq<usize>>,
}

/// The variables a variable map keeps track of.
pub open spec fn vstate(varm: Varmap) -> VarState {
    VarState {
        generated: varm.generated(),
        sources: varm.sources(),
        scopes: varm.scopes(),
        scope_sources: varm.scope_sources(),
    }
}

/// `x` is the first variable from the number in use up that is not in use.
pub open spec fn is_first_unused(g: Set<usize>, x: usize) -> bool {
    &&& x >= g.len()
    &&& !g.contains(x)
    &&& forall|y: usize| g.len() <= y < x ==> g.contains(y)
}

/// The first variable from the number in use up that is not in use.
pub open spec fn first_unused(g: Set<usize>) -> usize {
    choose|x: usize| is_first_unused(g, x)
}

pub proof fn lemma_first_unused(g: Set<usize>, x: usize)
    requires
        is_first_unused(g, x),
    ensures
        first_unused(g) == x,
{
    let y = first_unused(g);
    assert(is_first_unused(g, y));
    if y < x {
        assert(g.contains(y));
    } else if x < y {
        assert(g.contains(x));
    }
}

/// A fresh variable, made in the innermost scope.
pub open spec fn vs_fresh(vs: VarState) -> (usize, VarState) {
    let x = first_unused(vs.generated);
    (x, VarState {
        generated: vs.generated.insert(x),
        sources: vs.sources,
        scopes: vs.scopes.update(vs.scopes.len() - 1, vs.scopes.last().push(x)),
        scope_sources: vs.scope_sources,
    })
}

/// The variable of the source variable `s`: the one it has, or a fresh one
/// given to it in the innermost scope.
pub open spec fn vs_source(vs: VarState, s: usize) -> (usize, VarState) {
    if vs.sources.contains_key(s) {
        (vs.sources[s], vs)
    } else {
        let (x, vs1) = vs_fresh(vs);
        (x, VarState {
            generated: vs1.generated,
            sources: vs1.sources.insert(s, x),
            scopes: vs1.scopes,
            scope_sources: vs1.scope_sources.update(vs1.scope_sources.len() - 1, vs1.scope_sources.last().push(s)),
        })
    }
}

/// A new innermost scope.
pub open spec fn vs_enter(vs: VarState) -> VarState {
    VarState {
        generated: vs.generated,
        sources: vs.sources,
        scopes: vs.scopes.push(Seq::empty()),
        scope_sources: vs.scope_sources.push(Seq::empty()),
    }
}

/// The innermost scope closed, its variables given back and its source
/// variables forgotten.
pub open spec fn vs_exit(vs: VarState) -> VarState {
    VarState {
        generated: vs.generated.difference(vs.scopes.last().to_set()),
        sources: vs.sources.remove_keys(vs.scope_sources.last().to_set()),
        scopes: vs.scopes.drop_last(),
        scope_sources: vs.scope_sources.drop_last(),
    }
}

/// Work done in a scope: a fresh variable made, the variable of a source
/// variable taken, or a scope of its own opened, worked in and closed.
pub enum ScopeOp {
    Fresh,
    Source(usize),
    Nested(Seq<ScopeOp>),
}

/// One piece of work; `None` where a fresh variable was asked for and none
/// is left.
pub open spec fn run_op(vs: VarState, op: ScopeOp) -> Option<VarState>
    decreases op, 0nat,
{
    match op {
        ScopeOp::Fresh => if is_first_unused(vs.generated, first_unused(vs.generated)) {
            Some(vs_fresh(vs).1)
        } else {
            None
        },
        ScopeOp::Source(src) => if vs.sources.contains_key(src) || is_first_unused(vs.generated, first_unused(vs.generated)) {
            Some(vs_source(vs, src).1)
        } else {
            None
        },
        ScopeOp::Nested(inner) => match run_ops(vs_enter(vs), inner) {
            Some(v) => Some(vs_exit(v)),
            None => None,
        },
    }
}

/// The pieces of work one after the other.
pub open spec fn run_ops(vs: VarState, ops: Seq<ScopeOp>) -> Option<VarState>
    decreases ops, 0nat,
{
    if ops.len() == 0 {
        Some(vs)
    } else {
        match run_op(vs, ops[0]) {
            Some(v) => run_ops(v, ops.drop_first()),
            None => None,
        }
    }
}

/// `v` is `vs` with one scope opened and worked in: the scope's variables
/// are in use besides those of `vs` and were not in use there, and its
/// source variables are mapped besides those of `vs` and were not mapped
/// there.
pub open spec fn inside_scope(vs: VarState, v: VarState) -> bool {
    &&& v.scopes.len() == vs.scopes.len() + 1
    &&& v.scopes.drop_last() == vs.scopes
    &&& v.scope_sources.len() == vs.scope_sources.len() + 1
    &&& v.scope_sources.drop_last() == vs.scope_sources
    &&& v.generated.finite()
    &&& v.generated == vs.generated.union(v.scopes.last().to_set())
    &&& forall|x: usize| #[trigger] v.scopes.last().contains(x) ==> !vs.generated.contains(x)
    &&& v.sources.remove_keys(v.scope_sources.last().to_set()) == vs.sources
    &&& forall|x: usize| #[trigger] v.scope_sources.last().contains(x) ==> !vs.sources.contains_key(x)
}

proof fn lemma_inside_scope_op(vs: VarState, v: VarState, op: ScopeOp)
    requires
        vs.generated.finite(),
        inside_scope(vs, v),
    ensures
        run_op(v, op) matches Some(w) ==> inside_scope(vs, w),
    decreases op, 0nat,
{
    let l = v.scopes.last();
    let s = v.scope_sources.last();
    match op {
        ScopeOp::Fresh => {
            if is_first_unused(v.generated, first_unused(v.generated)) {
                let (x, w) = vs_fresh(v);
                assert(w.scopes.last() == l.push(x));
                assert(w.scopes.drop_last() =~= vs.scopes);
                l.lemma_push_to_set_commute(x);
                assert(w.generated =~= vs.generated.union(w.scopes.last().to_set()));
                assert forall|y: usize| #[trigger] w.scopes.last().contains(y) implies !vs.generated.contains(y) by {
                    if y != x {
                        assert(l.contains(y)) by {
                            let i = choose|i: int| 0 <= i < l.push(x).len() && l.push(x)[i] == y;
                            assert(l[i] == y);
                        }
                    }
                }
            }
        },
        ScopeOp::Source(src) => {
            if !v.sources.contains_key(src) && is_first_unused(v.generated, first_unused(v.generated)) {
                let (x, w) = vs_source(v, src);
                assert(w.scopes.last() == l.push(x));
                assert(w.scopes.drop_last() =~= vs.scopes);
                assert(w.scope_sources.last() == s.push(src));
                assert(w.scope_sources.drop_last() =~= vs.scope_sources);
                l.lemma_push_to_set_commute(x);
                s.lemma_push_to_set_commute(src);
                assert(w.generated =~= vs.generated.union(w.scopes.last().to_set()));
                assert forall|y: usize| #[trigger] w.scopes.last().contains(y) implies !vs.generated.contains(y) by {
                    if y != x {
                        assert(l.contains(y)) by {
                            let i = choose|i: int| 0 <= i < l.push(x).len() && l.push(x)[i] == y;
                            assert(l[i] == y);
                        }
                    }
                }
                assert forall|y: usize| #[trigger] w.scope_sources.last().contains(y) implies !vs.sources.contains_key(y) by {
                    if y != src {
                        assert(s.contains(y)) by {
                            let i = choose|i: int| 0 <= i < s.push(src).len() && s.push(src)[i] == y;
                            assert(s[i] == y);
                        }
                    } else {
                        assert(!v.sources.contains_key(src));
                        if vs.sources.contains_key(src) {
                            assert(!s.to_set().contains(src));
                            assert(v.sources.remove_keys(s.to_set()).contains_key(src));
                        }
                    }
                }
                assert(w.sources.remove_keys(w.scope_sources.last().to_set()) =~= vs.sources);
            }
        },
        ScopeOp::Nested(inner) => {
            lemma_scope_restores(v, inner);
        },
    }
}

proof fn lemma_inside_scope_ops(vs: VarState, v: VarState, ops: Seq<ScopeOp>)
    requires
        vs.generated.finite(),
        inside_scope(vs, v),
    ensures
        run_ops(v, ops) matches Some(w) ==> inside_scope(vs, w),
    decreases ops, 0nat,
{
    if ops.len() > 0 {
        lemma_inside_scope_op(vs, v, ops[0]);
        if let Some(v1) = run_op(v, ops[0]) {
            lemma_inside_scope_ops(vs, v1, ops.drop_first());
        }
    }
}

/// A scope opened, worked in by any number of fresh variables, source
/// variables and nested scopes opened and closed in turn, and closed again
/// leaves the variables as they were: every variable made in it is given
/// back and every source variable mapped in it forgotten.
pub proof fn lemma_scope_restores(vs: VarState, ops: Seq<ScopeOp>)
    requires
        vs.generated.finite(),
    ensures
        run_ops(vs_enter(vs), ops) matches Some(v) ==> vs_exit(v) == vs,
    decreases ops, 1nat,
{
    let v0 = vs_enter(vs);
    assert(v0.scopes.drop_last() =~= vs.scopes);
    assert(v0.scope_sources.drop_last() =~= vs.scope_sources);
    assert(Seq::<usize>::empty().to_set() =~= Set::<usize>::empty());
    assert(v0.generated =~= vs.generated.union(v0.scopes.last().to_set()));
    assert(v0.sources.remove_keys(v0.scope_sources.last().to_set()) =~= vs.sources);
    lemma_inside_scope_ops(vs, v0, ops);
    if let Some(v) = run_ops(v0, ops) {
        let e = vs_exit(v);
        assert(e.generated =~= vs.generated);
    }
}

/// Each piece of work in `ops` leads from one of `states` to the next.
pub open spec fn ops_chain(states: Seq<VarState>, ops: Seq<ScopeOp>) -> bool {
    &&& states.len() == ops.len() + 1
    &&& forall|i: int| 0 <= i < ops.len() ==> run_op(states[i], #[trigger] ops[i]) == Some(states[i + 1])
}

/// Work done piece by piece is the work done all at once.
pub proof fn lemma_chain_runs(states: Seq<VarState>, ops: Seq<ScopeOp>)
    requires
        ops_chain(states, ops),
    ensures
        run_ops(states[0], ops) == Some(states.last()),
    decreases ops.len(),
{
    if ops.len() > 0 {
        let rest = states.drop_first();
        assert(run_op(states[0], ops[0]) == Some(states[1]));
        assert forall|i: int| 0 <= i < ops.drop_first().len() implies run_op(rest[i], #[trigger] ops.drop_first()[i]) == Some(rest[i + 1]) by {
            assert(run_op(states[i + 1], ops[i + 1]) == Some(states[i + 2]));
        }
        lemma_chain_runs(rest, ops.drop_first());
        assert(rest.last() == states.last());
    }
}

/// The variable maps at each call: a scope opened on `before` with
/// `enter_scope` gives `states[0]`; each call of `generate_var` or
/// `get_source_variable` in it, or each nested scope opened and closed in
/// it, gives the next of `states` (their contracts, and for a nested scope
/// this law, say which step `ops` it is); closing the scope with
/// `exit_scope` gives `after`. Then the map is as it was before: every
/// variable made in the scope is given back, every source variable mapped
/// in it forgotten, and the nested scope counts as one step.
pub proof fn lemma_scope_calls_restore(before: Varmap, states: Seq<Varmap>, ops: Seq<ScopeOp>, after: Varmap)
    requires
        before.wf(),
        states.len() == ops.len() + 1,
        vstate(states[0]) == vs_enter(vstate(before)),
        forall|i: int| 0 <= i < ops.len() ==> run_op(vstate(states[i]), #[trigger] ops[i]) == Some(vstate(states[i + 1])),
        vstate(after) == vs_exit(vstate(states.last())),
    ensures
        vstate(after) == vstate(before),
        after.generated() == before.generated(),
        after.scopes() == before.scopes(),
        after.sources() == before.sources(),
        run_op(vstate(before), ScopeOp::Nested(ops)) == Some(vstate(after)),
{
    let vs = states.map_values(|v: Varmap| vstate(v));
    assert forall|i: int| 0 <= i < ops.len() implies run_op(vs[i], #[trigger] ops[i]) == Some(vs[i + 1]) by {
        assert(run_op(vstate(states[i]), ops[i]) == Some(vstate(states[i + 1])));
    }
    lemma_chain_runs(vs, ops);
    lemma_scope_restores(vstate(before), ops);
    assert(vs.last() == vstate(states.last()));
}

impl Default for Varmap {
    fn default() -> (r: Self)
        ensures
            r.wf(),
            r.generated() == Set::<usize>::empty(),
            r.sources() == Map::<usize, usize>::empty(),
            r.scopes() == Seq::<Seq<usize>>::empty(),
            r.scope_sources() == Seq::<Seq<usize>>::empty(),
    {
        let r = Self {
            generated_vars: HashSet::new(),
            source_to_generated_map: HashMap::new(),
            scope_stack: Vec::new(),
            scope_sources: Vec::new(),
        };
        assert(r.scopes() =~= Seq::<Seq<usize>>::empty());
        assert(r.scope_sources() =~= Seq::<Seq<usize>>::empty());
        r
    }
}

} // verus!
