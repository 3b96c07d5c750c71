use vstd::prelude::*;

use crate::glue_interpreter::lang0::ast::Ast as Ast0;
use crate::glue_interpreter::lang0::expr::{ConstantExpr, Expr as Expr0, ExprView, OpExpr, OpKind, Var};
use crate::glue_interpreter::lang0::stmt::{stmt_views, Label, Stmt as Stmt0, StmtView};
use crate::glue_interpreter::lang2::varmap::{
    first_unused, is_first_unused, lemma_first_unused, vs_enter, vs_exit, vs_fresh, vs_source, vstate, LangNPlusOneVar,
    LangNVar, Scope, VarState, Varmap,
};
use crate::glue_interpreter::storage::StorageKey;

verus! {

/// A path into the term at hand: positions from the start or back from
/// the end.
#[derive(Debug, PartialEq, Eq, Hash)]
pub struct Index {
    elements: Vec<IndexElement>,
}

impl Index {
    pub closed spec fn spec_elements(&self) -> Seq<IndexElement> {
        self.elements@
    }

    pub fn new(elements: Vec<IndexElement>) -> (r: Self)
        ensures
            r.spec_elements() == elements@,
    {
        Self { elements }
    }

    pub fn elements(&self) -> (r: &[IndexElement])
        ensures
            r@ == self.spec_elements(),
    {
        self.elements.as_slice()
    }
}

/// A position from the start or back from the end.
#[derive(Clone, Copy, Debug, PartialEq, Eq, Hash)]
pub enum IndexElement {
    ZeroPlus(usize),
    LenMinus(usize),
}

/// Where a loop stops: that many positions back from the end.
#[derive(Clone, Copy, Debug, PartialEq, Eq, Hash)]
pub struct LoopEnd {
    pub len_minus: usize,
}

/// A term to build: a symbol, a copy of a part of the source, or a
/// compound of elements.
#[derive(Debug, PartialEq, Eq, Hash)]
pub enum Ast {
    Sym(StorageKey),
    Copy(Index),
    Build(Vec<AstLoopable>),
}

/// An element of a compound to build: a term, or a loop over a compound of
/// the source that builds its body at each position.
#[derive(Debug, PartialEq, Eq, Hash)]
pub enum AstLoopable {
    Ast(Ast),
    ForLoop { var: LangNPlusOneVar, start: usize, end: LoopEnd, prior: Index, body: Box<AstLoopable> },
}

impl Ast {
    pub fn sym(key: StorageKey) -> (r: Self)
        ensures
            r == Ast::Sym(key),
    {
        Self::Sym(key)
    }

    pub fn copy(elements: Vec<IndexElement>) -> (r: Self)
        ensures
            r matches Ast::Copy(index) && index.spec_elements() == elements@,
    {
        Self::Copy(Index::new(elements))
    }

    pub fn build(elements: Vec<AstLoopable>) -> (r: Self)
        ensures
            r == Ast::Build(elements),
    {
        Self::Build(elements)
    }
}

impl AstLoopable {
    pub fn sym(key: StorageKey) -> (r: Self)
        ensures
            r == AstLoopable::Ast(Ast::Sym(key)),
    {
        Self::Ast(Ast::sym(key))
    }

    pub fn copy(elements: Vec<IndexElement>) -> (r: Self)
        ensures
            r matches AstLoopable::Ast(Ast::Copy(index)) && index.spec_elements() == elements@,
    {
        Self::Ast(Ast::copy(elements))
    }

    pub fn build(elements: Vec<AstLoopable>) -> (r: Self)
        ensures
            r == AstLoopable::Ast(Ast::Build(elements)),
    {
        Self::Ast(Ast::build(elements))
    }

    pub fn for_loop(
        var: crate::glue_interpreter::lang0::expr::Var,
        start: usize,
        end_at_len_minus: usize,
        prior: Vec<IndexElement>,
        body: AstLoopable,
    ) -> (r: Self)
        ensures
            r matches AstLoopable::ForLoop { var: v, start: s, end: e, prior: p, body: b } && v.0 == var.0 && s == start
                && e.len_minus == end_at_len_minus && p.spec_elements() == prior@ && *b == body,
    {
        Self::ForLoop {
            var: LangNPlusOneVar::new(var.0),
            start,
            end: LoopEnd { len_minus: end_at_len_minus },
            body: Box::new(body),
            prior: Index::new(prior),
        }
    }
}

/// How much work the term is.
spec fn ast_size(a: Ast) -> nat
    decreases a, 0nat,
{
    match a {
        Ast::Build(b) => 2 + loopables_size(b@),
        _ => 1,
    }
}

/// How much work the elements are.
spec fn loopables_size(bs: Seq<AstLoopable>) -> nat
    decreases bs, 0nat,
{
    if bs.len() == 0 {
        0
    } else {
        loopables_size(bs.drop_last()) + loopable_size(bs.last()) + 1
    }
}

/// How much work the element is.
spec fn loopable_size(l: AstLoopable) -> nat
    decreases l, 0nat,
{
    match l {
        AstLoopable::Ast(a) => ast_size(a) + 1,
        AstLoopable::ForLoop { body, .. } => loopable_size(*body) + 3,
    }
}

proof fn lemma_loopables_size(bs: Seq<AstLoopable>, i: int)
    requires
        0 <= i < bs.len(),
    ensures
        loopable_size(bs[i]) < loopables_size(bs),
    decreases bs.len(),
{
    if i < bs.len() - 1 {
        lemma_loopables_size(bs.drop_last(), i);
        assert(bs.drop_last()[i] == bs[i]);
    }
}

/// An upper bound on how many variables compiling the term makes: one for
/// each element of each path, one for each compound, three for each loop.
pub open spec fn ast_vars(a: Ast) -> nat
    decreases a, 0nat,
{
    match a {
        Ast::Sym(_) => 0,
        Ast::Copy(index) => index.spec_elements().len(),
        Ast::Build(b) => 1 + loopables_vars(b@),
    }
}

/// An upper bound on how many variables compiling the elements makes.
pub open spec fn loopables_vars(bs: Seq<AstLoopable>) -> nat
    decreases bs, 0nat,
{
    if bs.len() == 0 {
        0
    } else {
        loopables_vars(bs.drop_last()) + loopable_vars(bs.last())
    }
}

/// An upper bound on how many variables compiling the element makes.
pub open spec fn loopable_vars(l: AstLoopable) -> nat
    decreases l, 0nat,
{
    match l {
        AstLoopable::Ast(a) => ast_vars(a),
        AstLoopable::ForLoop { prior, body, .. } => 3 + prior.spec_elements().len() + loopable_vars(*body),
    }
}

/// The label of the statement, if any, is within `n`.
pub open spec fn label_ok(s: Stmt0, n: nat) -> bool {
    match s {
        Stmt0::Jump { jump_to, .. } => jump_to.0 <= n,
        Stmt0::UnconditionalJump(l) => l.0 <= n,
        _ => true,
    }
}

/// Every jump of the program goes to a statement of it or to its end.
pub open spec fn labels_in_range(stmts: Seq<Stmt0>) -> bool {
    forall|i: int| 0 <= i < stmts.len() ==> label_ok(#[trigger] stmts[i], stmts.len())
}

/// What the compiler has done so far: the statements written and the
/// variables.
pub struct CState {
    pub stmts: Seq<StmtView>,
    pub vars: VarState,
}

/// The compiler's state with these variables and statements.
pub open spec fn cstate(varm: Varmap, stmts: Seq<Stmt0>) -> CState {
    CState { stmts: stmt_views(stmts), vars: vstate(varm) }
}

/// `st` with `s` written.
pub open spec fn cs_push(st: CState, s: StmtView) -> CState {
    CState { stmts: st.stmts.push(s), vars: st.vars }
}

/// `st` with its variables `vs`.
pub open spec fn cs_vars(st: CState, vs: VarState) -> CState {
    CState { stmts: st.stmts, vars: vs }
}

/// Sets variable `v` to `e`.
pub open spec fn set_var(v: usize, e: ExprView) -> StmtView {
    StmtView::Assign { lhs: Var(v), rhs: e }
}

/// The constant `c`.
pub open spec fn const_view(c: usize) -> ExprView {
    ExprView::OpExpr(OpExpr::ConstantExpr(ConstantExpr::Constant(c)))
}

/// Variable `v` and `rhs` combined by `kind`.
pub open spec fn op_view(kind: OpKind, v: usize, rhs: ConstantExpr) -> ExprView {
    ExprView::OpExpr(OpExpr::Op { kind, lhs: Var(v), rhs })
}

/// Compiling the path `els` behind the expressions `es`: the state after,
/// and the expressions of the whole path. A position from the start is
/// taken as it is; a position back from the end gets a fresh variable, set
/// to the length of the compound the path so far leads to, less the
/// position.
pub open spec fn cs_prior(els: Seq<IndexElement>, st: CState, es: Seq<ConstantExpr>) -> (CState, Seq<ConstantExpr>)
    decreases els.len(),
{
    if els.len() == 0 {
        (st, es)
    } else {
        let (st1, es1) = cs_prior(els.drop_last(), st, es);
        match els.last() {
            IndexElement::ZeroPlus(zp) => (st1, es1.push(ConstantExpr::Constant(zp))),
            IndexElement::LenMinus(lm) => {
                let (x, vs) = vs_fresh(st1.vars);
                let st2 = cs_push(cs_vars(st1, vs), set_var(x, ExprView::Len(es1)));
                (cs_push(st2, set_var(x, op_view(OpKind::Sub, x, ConstantExpr::Constant(lm)))), es1.push(ConstantExpr::Var(Var(x))))
            },
        }
    }
}

/// Compiling the term, the innermost loop running over the compound `es`
/// leads to. A symbol is pushed; a copy pushes what its path, behind `es`,
/// leads to; a compound opens a scope with a fresh repetition count set to
/// zero, compiles its elements in order, builds a compound of as many keys
/// as the count says and closes the scope.
pub open spec fn cs_ast(a: Ast, st: CState, es: Seq<ConstantExpr>) -> CState
    decreases a, 0nat,
{
    match a {
        Ast::Sym(k) => cs_push(st, StmtView::Sym(k)),
        Ast::Copy(index) => {
            let (st1, es1) = cs_prior(index.spec_elements(), st, es);
            cs_push(st1, StmtView::Copy(es1))
        },
        Ast::Build(b) => {
            let (rep, vs) = vs_fresh(vs_enter(st.vars));
            let st1 = cs_push(cs_vars(st, vs), set_var(rep, const_view(0)));
            let st2 = cs_loopables(b@, rep, st1, es);
            let st3 = cs_push(st2, StmtView::Build { length: ConstantExpr::Var(Var(rep)) });
            cs_vars(st3, vs_exit(st3.vars))
        },
    }
}

/// Compiling the elements in order, `rep` counting what they push.
pub open spec fn cs_loopables(bs: Seq<AstLoopable>, rep: usize, st: CState, es: Seq<ConstantExpr>) -> CState
    decreases bs, 0nat,
{
    if bs.len() == 0 {
        st
    } else {
        cs_loopable(bs.last(), rep, cs_loopables(bs.drop_last(), rep, st, es), es)
    }
}

/// Compiling an element, `rep` counting what it pushes. A term is compiled
/// as it is. A loop opens a scope; takes the variable of its source
/// variable as the induction variable; compiles its prior path behind
/// `es`; sets the induction variable to its start and a fresh end variable
/// to the length of the compound the path leads to, less the loop's end;
/// sets a fresh length variable to the end less the start; writes a jump to
/// its test; compiles its body with the induction variable behind the path;
/// steps the induction variable; jumps back to the body while it is below
/// the end; for an innermost loop adds the length to `rep`; points the
/// first jump at the test; and closes the scope.
pub open spec fn cs_loopable(l: AstLoopable, rep: usize, st: CState, es: Seq<ConstantExpr>) -> CState
    decreases l, 0nat,
{
    match l {
        AstLoopable::Ast(a) => cs_ast(a, st, es),
        AstLoopable::ForLoop { var, start, end, prior, body } => {
            let (v, vs1) = vs_source(vs_enter(st.vars), var.0);
            let (st2, es2) = cs_prior(prior.spec_elements(), cs_vars(st, vs1), es);
            let (ev, vs3) = vs_fresh(st2.vars);
            let st4 = cs_push(cs_push(cs_vars(st2, vs3), set_var(v, const_view(start))), set_var(ev, ExprView::Len(es2)));
            let st5 = if end.len_minus != 0 {
                cs_push(st4, set_var(ev, op_view(OpKind::Sub, ev, ConstantExpr::Constant(end.len_minus))))
            } else {
                st4
            };
            let (lv, vs6) = vs_fresh(st5.vars);
            let st7 = cs_push(cs_vars(st5, vs6), set_var(lv, op_view(OpKind::Sub, ev, ConstantExpr::Var(Var(v)))));
            let top = st7.stmts.len();
            let st8 = cs_push(st7, StmtView::UnconditionalJump(Label(0)));
            let st9 = cs_loopable(*body, rep, st8, es2.push(ConstantExpr::Var(Var(v))));
            let st10 = cs_push(st9, set_var(v, op_view(OpKind::Add, v, ConstantExpr::Constant(1))));
            let bot = st10.stmts.len();
            let st11 = cs_push(st10, StmtView::Jump {
                jump_to: Label((top + 1) as usize),
                when_var: Var(v),
                le_var: ConstantExpr::Var(Var(ev)),
            });
            let st12 = if *body is Ast {
                cs_push(st11, set_var(rep, op_view(OpKind::Add, rep, ConstantExpr::Var(Var(lv)))))
            } else {
                st11
            };
            let st13 = CState {
                stmts: st12.stmts.update(top as int, StmtView::UnconditionalJump(Label(bot as usize))),
                vars: st12.vars,
            };
            cs_vars(st13, vs_exit(st13.vars))
        },
    }
}

/// The variables before anything is compiled: none, in one open scope.
pub open spec fn initial_vars() -> VarState {
    VarState {
        generated: Set::empty(),
        sources: Map::empty(),
        scopes: seq![Seq::empty()],
        scope_sources: seq![Seq::empty()],
    }
}

/// The program the term compiles to.
pub open spec fn compiled(a: Ast) -> Seq<StmtView> {
    cs_ast(a, CState { stmts: Seq::empty(), vars: initial_vars() }, Seq::empty()).stmts
}

proof fn lemma_cs_prior_elems(els: Seq<IndexElement>, st: CState, es: Seq<ConstantExpr>)
    ensures
        cs_prior(els, st, es).1.len() == es.len() + els.len(),
        cs_prior(els, st, es).1.subrange(0, es.len() as int) == es,
    decreases els.len(),
{
    if els.len() > 0 {
        lemma_cs_prior_elems(els.drop_last(), st, es);
        let es1 = cs_prior(els.drop_last(), st, es).1;
        let r = cs_prior(els, st, es).1;
        assert(r.subrange(0, es.len() as int) =~= es1.subrange(0, es.len() as int));
    }
}

/// A copy of the expressions.
fn copy_exprs(v: &Vec<ConstantExpr>) -> (r: Vec<ConstantExpr>)
    ensures
        r@ == v@,
{
    let mut out: Vec<ConstantExpr> = Vec::new();
    let mut i: usize = 0;
    while i < v.len()
        invariant
            i <= v@.len(),
            out@ == v@.subrange(0, i as int),
        decreases v@.len() - i,
    {
        out.push(v[i]);
        i = i + 1;
    }
    assert(v@.subrange(0, v@.len() as int) == v@);
    out
}

/// Appends a statement, keeping the labels within range.
fn push_stmt(stmts: &mut Vec<Stmt0>, s: Stmt0)
    requires
        labels_in_range(old(stmts)@),
        label_ok(s, (old(stmts)@.len() + 1) as nat),
    ensures
        final(stmts)@ == old(stmts)@.push(s),
        stmt_views(final(stmts)@) == stmt_views(old(stmts)@).push(s@),
        labels_in_range(final(stmts)@),
{
    let ghost before = stmts@;
    stmts.push(s);
    assert forall|i: int| 0 <= i < stmts@.len() implies label_ok(#[trigger] stmts@[i], stmts@.len()) by {
        if i < before.len() {
            assert(label_ok(before[i], before.len()));
            assert(stmts@[i] == before[i]);
        }
    }
    assert(stmt_views(stmts@) =~= stmt_views(before).push(s@));
}

/// A fresh variable in the innermost scope, or `None` when half of all
/// `usize` values are in use.
fn fresh_var(varm: &mut Varmap, scope: &Scope) -> (r: Option<LangNVar>)
    requires
        old(varm).wf(),
        old(varm).is_current(*scope),
    ensures
        final(varm).wf(),
        final(varm).scopes().len() == old(varm).scopes().len(),
        r is None ==> *final(varm) == *old(varm),
        r is None <==> old(varm).generated().len() >= usize::MAX / 2,
        r is Some ==> final(varm).generated().len() == old(varm).generated().len() + 1,
        r matches Some(v) ==> vs_fresh(vstate(*old(varm))) == (v.0, vstate(*final(varm))),
{
    if varm.in_use() >= usize::MAX / 2 {
        return None;
    }
    let v = varm.generate_var(scope);
    proof {
        lemma_first_unused(old(varm).generated(), v.0);
        assert(vstate(*varm) =~= vs_fresh(vstate(*old(varm))).1);
    }
    Some(v)
}

/// Adds to `elements` the positions of `index`, those back from the end by
/// a variable set to them.
fn add_prior_elements(
    index: &Index,
    elements: &mut Vec<ConstantExpr>,
    stmts: &mut Vec<Stmt0>,
    varm: &mut Varmap,
    scope: &Scope,
) -> (r: Option<()>)
    requires
        old(varm).wf(),
        old(varm).is_current(*scope),
        labels_in_range(old(stmts)@),
    ensures
        final(varm).wf(),
        final(varm).scopes().len() == old(varm).scopes().len(),
        labels_in_range(final(stmts)@),
        old(stmts)@.len() <= final(stmts)@.len(),
        forall|i: int| 0 <= i < old(stmts)@.len() ==> #[trigger] final(stmts)@[i] == old(stmts)@[i],
        r is Some ==> (cstate(*final(varm), final(stmts)@), final(elements)@)
            == cs_prior(index.spec_elements(), cstate(*old(varm), old(stmts)@), old(elements)@),
        r is Some ==> final(varm).generated().len() <= old(varm).generated().len() + index.spec_elements().len(),
        r is None ==> old(varm).generated().len() + index.spec_elements().len() >= usize::MAX / 2,
{
    let els = index.elements();
    let mut i: usize = 0;
    let ghost st0 = stmts@;
    let ghost c0 = cstate(*varm, stmts@);
    let ghost e0 = elements@;
    assert(els@.take(0) =~= Seq::<IndexElement>::empty());
    while i < els.len()
        invariant
            els@ == index.spec_elements(),
            i <= els@.len(),
            varm.wf(),
            varm.is_current(*scope),
            labels_in_range(stmts@),
            st0.len() <= stmts@.len(),
            forall|t: int| 0 <= t < st0.len() ==> #[trigger] stmts@[t] == st0[t],
            st0 == old(stmts)@,
            c0 == cstate(*old(varm), old(stmts)@),
            e0 == old(elements)@,
            (cstate(*varm, stmts@), elements@) == cs_prior(els@.take(i as int), c0, e0),
            varm.scopes().len() == old(varm).scopes().len(),
            varm.generated().len() <= old(varm).generated().len() + i,
        decreases els@.len() - i,
    {
        proof {
            assert(els@.take(i + 1).drop_last() =~= els@.take(i as int));
            assert(els@.take(i + 1).last() == els@[i as int]);
        }
        match els[i] {
            IndexElement::ZeroPlus(zp) => elements.push(ConstantExpr::constant(zp)),
            IndexElement::LenMinus(lm) => {
                let copy = copy_exprs(elements);
                let ghost before = stmts@;
                let var = match fresh_var(varm, scope) {
                    Some(v) => v.0,
                    None => return None,
                };
                push_stmt(stmts, Stmt0::assign(var, Expr0::len(copy)));
                push_stmt(stmts, Stmt0::assign(var, Expr0::sub(var, ConstantExpr::constant(lm))));
                elements.push(ConstantExpr::var(var));
            },
        }
        i = i + 1;
    }
    assert(els@.take(els@.len() as int) =~= els@);
    Some(())
}

/// The statements of `old` are still at their places in `new`.
pub open spec fn keeps_prefix(old: Seq<Stmt0>, new: Seq<Stmt0>) -> bool {
    &&& old.len() <= new.len()
    &&& forall|i: int| 0 <= i < old.len() ==> #[trigger] new[i] == old[i]
}

/// Compiles the term into `stmts`, as [`cs_ast`] says; the innermost loop
/// runs over the compound `elems` leads to, and `scope` is the innermost
/// scope.
fn compile_ast(
    ast: &Ast,
    varm: &mut Varmap,
    elems: &mut Vec<ConstantExpr>,
    stmts: &mut Vec<Stmt0>,
    scope: &Scope,
) -> (r: Option<()>)
    requires
        old(varm).wf(),
        old(varm).is_current(*scope),
        labels_in_range(old(stmts)@),
    ensures
        final(varm).wf(),
        labels_in_range(final(stmts)@),
        keeps_prefix(old(stmts)@, final(stmts)@),
        r is Some ==> final(varm).scopes().len() == old(varm).scopes().len(),
        r is Some ==> final(elems)@ == old(elems)@,
        r is Some ==> cstate(*final(varm), final(stmts)@) == cs_ast(*ast, cstate(*old(varm), old(stmts)@), old(elems)@),
        r is Some ==> final(varm).generated().len() <= old(varm).generated().len() + ast_vars(*ast),
        r is None ==> old(varm).generated().len() + ast_vars(*ast) >= usize::MAX / 2,
    decreases ast_size(*ast), 0nat,
{
    let ghost c0 = cstate(*varm, stmts@);
    let ghost e0 = elems@;
    match ast {
        Ast::Sym(key) => {
            push_stmt(stmts, Stmt0::sym(*key));
            Some(())
        },
        Ast::Copy(index) => {
            let mut new_elements = copy_exprs(elems);
            if add_prior_elements(index, &mut new_elements, stmts, varm, scope).is_none() {
                return None;
            }
            push_stmt(stmts, Stmt0::copy(new_elements));
            Some(())
        },
        Ast::Build(b) => {
            let ghost g0 = varm.generated().len();
            let inner = varm.enter_scope();
            let repetitions_var = match fresh_var(varm, &inner) {
                Some(v) => v,
                None => return None,
            };
            push_stmt(stmts, Stmt0::assign(repetitions_var.0, Expr0::constant(0)));
            let ghost c1 = cstate(*varm, stmts@);
            proof {
                assert(c1 == cs_push(cs_vars(c0, vs_fresh(vs_enter(c0.vars)).1), set_var(repetitions_var.0, const_view(0))));
            }
            let mut i: usize = 0;
            assert(b@.take(0) =~= Seq::<AstLoopable>::empty());
            while i < b.len()
                invariant
                    i <= b@.len(),
                    varm.wf(),
                    varm.is_current(inner),
                    labels_in_range(stmts@),
                    keeps_prefix(old(stmts)@, stmts@),
                    elems@ == e0,
                    e0 == old(elems)@,
                    c0 == cstate(*old(varm), old(stmts)@),
                    *ast == Ast::Build(*b),
                    cstate(*varm, stmts@) == cs_loopables(b@.take(i as int), repetitions_var.0, c1, e0),
                    varm.generated().len() <= g0 + 1 + loopables_vars(b@.take(i as int)),
                    g0 == old(varm).generated().len(),
                    varm.scopes().len() == old(varm).scopes().len() + 1,
                decreases b@.len() - i,
            {
                proof {
                    assert(b@.take(i + 1).drop_last() =~= b@.take(i as int));
                    assert(b@.take(i + 1).last() == b@[i as int]);
                    lemma_loopables_size(b@, i as int);
                    lemma_loopables_vars_prefix(b@, i as int);
                }
                match compile_loopable(&b[i], repetitions_var, varm, elems, stmts, &inner) {
                    Some(()) => {},
                    None => return None,
                }
                i = i + 1;
            }
            assert(b@.take(b@.len() as int) =~= b@);
            push_stmt(stmts, Stmt0::build(ConstantExpr::var(repetitions_var.0)));
            let ghost gbefore = varm.generated();
            varm.exit_scope(inner);
            proof {
                vstd::set_lib::lemma_len_subset(varm.generated(), gbefore);
            }
            Some(())
        },
    }
}

proof fn lemma_loopables_vars_prefix(bs: Seq<AstLoopable>, i: int)
    requires
        0 <= i < bs.len(),
    ensures
        loopables_vars(bs.take(i)) + loopable_vars(bs[i]) <= loopables_vars(bs),
        loopables_vars(bs.take(i + 1)) == loopables_vars(bs.take(i)) + loopable_vars(bs[i]),
    decreases bs.len(),
{
    assert(bs.take(i + 1).drop_last() =~= bs.take(i));
    if i < bs.len() - 1 {
        lemma_loopables_vars_prefix(bs.drop_last(), i);
        assert(bs.drop_last().take(i) =~= bs.take(i));
        assert(bs.drop_last()[i] == bs[i]);
    } else {
        assert(bs.drop_last() =~= bs.take(i));
    }
}

/// Compiles the element into `stmts`, as [`cs_loopable`] says, with
/// `repetitions_var` counting what it pushes.
fn compile_loopable(
    l: &AstLoopable,
    repetitions_var: LangNVar,
    varm: &mut Varmap,
    elems: &mut Vec<ConstantExpr>,
    stmts: &mut Vec<Stmt0>,
    scope: &Scope,
) -> (r: Option<()>)
    requires
        old(varm).wf(),
        old(varm).is_current(*scope),
        labels_in_range(old(stmts)@),
    ensures
        final(varm).wf(),
        labels_in_range(final(stmts)@),
        keeps_prefix(old(stmts)@, final(stmts)@),
        r is Some ==> final(varm).scopes().len() == old(varm).scopes().len(),
        r is Some ==> final(elems)@ == old(elems)@,
        r is Some ==> cstate(*final(varm), final(stmts)@) == cs_loopable(*l, repetitions_var.0, cstate(*old(varm), old(stmts)@), old(elems)@),
        r is Some ==> final(varm).generated().len() <= old(varm).generated().len() + loopable_vars(*l),
        r is None ==> old(varm).generated().len() + loopable_vars(*l) >= usize::MAX / 2,
    decreases loopable_size(*l), 1nat,
{
    match l {
        AstLoopable::Ast(ast) => compile_ast(ast, varm, elems, stmts, scope),
        AstLoopable::ForLoop { var, start, end, prior, body } => {
            let ghost c0 = cstate(*varm, stmts@);
            let ghost e0 = elems@;
            let ghost g0 = varm.generated().len();
            let inner = varm.enter_scope();
            if varm.in_use() >= usize::MAX / 2 {
                return None;
            }
            let ghost ve = vstate(*varm);
            let v = varm.get_source_variable(*var, &inner);
            proof {
                if !ve.sources.contains_key(var.0) {
                    lemma_first_unused(ve.generated, v.0);
                    assert(varm.generated().len() == g0 + 1);
                }
                assert(vstate(*varm) =~= vs_source(ve, var.0).1);
                assert(cstate(*varm, stmts@) == cs_vars(c0, vs_source(vs_enter(c0.vars), var.0).1));
            }
            let ghost c1 = cstate(*varm, stmts@);
            if add_prior_elements(prior, elems, stmts, varm, &inner).is_none() {
                return None;
            }
            let ghost c2 = cstate(*varm, stmts@);
            let ghost es2 = elems@;
            proof {
                lemma_cs_prior_elems(prior.spec_elements(), c1, e0);
            }
            let end_var = match fresh_var(varm, &inner) {
                Some(x) => x,
                None => return None,
            };
            push_stmt(stmts, Stmt0::assign(v.0, Expr0::constant(*start)));
            push_stmt(stmts, Stmt0::assign(end_var.0, Expr0::len(copy_exprs(elems))));
            elems.push(ConstantExpr::var(v.0));
            if end.len_minus != 0 {
                push_stmt(stmts, Stmt0::assign(end_var.0, Expr0::sub(end_var.0, ConstantExpr::constant(end.len_minus))));
            }
            let length_var = match fresh_var(varm, &inner) {
                Some(x) => x,
                None => return None,
            };
            push_stmt(stmts, Stmt0::assign(length_var.0, Expr0::sub(end_var.0, ConstantExpr::var(v.0))));
            let top_loop_jump_index = stmts.len();
            push_stmt(stmts, Stmt0::unconditional_jump(0));
            let ghost c8 = cstate(*varm, stmts@);
            let pop_count = match prior.elements().len().checked_add(1) {
                Some(c) => c,
                None => return None,
            };
            let ghost before_body = stmts@;
            match compile_loopable(body, repetitions_var, varm, elems, stmts, &inner) {
                Some(()) => {},
                None => return None,
            }
            push_stmt(stmts, Stmt0::assign(v.0, Expr0::add(v.0, ConstantExpr::constant(1))));
            let bot_loop_jump_index = stmts.len();
            push_stmt(stmts, Stmt0::jump(top_loop_jump_index + 1, v.0, ConstantExpr::var(end_var.0)));
            let is_most_inner_loop = match &**body {
                AstLoopable::Ast(_) => true,
                AstLoopable::ForLoop { .. } => false,
            };
            if is_most_inner_loop {
                push_stmt(stmts, Stmt0::assign(repetitions_var.0, Expr0::add(repetitions_var.0, ConstantExpr::var(length_var.0))));
            }
            let ghost st1 = stmts@;
            proof {
                assert(before_body[top_loop_jump_index as int] == Stmt0::UnconditionalJump(Label(0)));
                assert(st1[top_loop_jump_index as int] == before_body[top_loop_jump_index as int]);
            }
            stmts.set(top_loop_jump_index, Stmt0::unconditional_jump(bot_loop_jump_index));
            proof {
                assert forall|i: int| 0 <= i < stmts@.len() implies label_ok(#[trigger] stmts@[i], stmts@.len()) by {
                    if i != top_loop_jump_index {
                        assert(stmts@[i] == st1[i]);
                        assert(label_ok(st1[i], st1.len()));
                    }
                }
                assert(stmt_views(stmts@) =~= stmt_views(st1).update(top_loop_jump_index as int, StmtView::UnconditionalJump(Label(bot_loop_jump_index))));
            }
            let ghost full = elems@;
            let mut pop_count = pop_count;
            while pop_count > 0
                invariant
                    pop_count <= full.len(),
                    elems@ == full.subrange(0, full.len() - (prior.spec_elements().len() + 1 - pop_count)),
                    full.len() == e0.len() + prior.spec_elements().len() + 1,
                    pop_count <= prior.spec_elements().len() + 1,
                decreases pop_count,
            {
                elems.pop();
                pop_count = pop_count - 1;
            }
            assert(elems@ =~= e0);
            let ghost gbefore = varm.generated();
            varm.exit_scope(inner);
            proof {
                vstd::set_lib::lemma_len_subset(varm.generated(), gbefore);
            }
            Some(())
        },
    }
}

impl Ast {
    /// Compiles the term to a program of the stack language that builds
    /// it: the statements [`compiled`] gives, whose jumps all land in the
    /// program. `None` only where compiling could need half of all `usize`
    /// values as variables in use at once.
    pub fn compile(self) -> (r: Option<Ast0>)
        ensures
            r matches Some(a) ==> stmt_views(a.spec_stmts()) == compiled(self),
            r matches Some(a) ==> labels_in_range(a.spec_stmts()),
            r is None ==> ast_vars(self) >= usize::MAX / 2,
    {
        let mut varm = Varmap::default();
        let scope0 = varm.enter_scope();
        let mut elems: Vec<ConstantExpr> = Vec::new();
        let mut stmts: Vec<Stmt0> = Vec::new();
        proof {
            assert(varm.scopes() =~= seq![Seq::<usize>::empty()]);
            assert(varm.scope_sources() =~= seq![Seq::<usize>::empty()]);
            assert(vstate(varm) == initial_vars());
            assert(stmt_views(stmts@) =~= Seq::<StmtView>::empty());
        }
        match compile_ast(&self, &mut varm, &mut elems, &mut stmts, &scope0) {
            Some(()) => Some(Ast0::new(stmts)),
            None => None,
        }
    }
}

} // verus!
