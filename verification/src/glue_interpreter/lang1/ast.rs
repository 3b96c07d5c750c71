use vstd::prelude::*;
use std::collections::HashSet;

use crate::glue_interpreter::lang0::ast::Ast as Ast0;
use crate::glue_interpreter::lang0::expr::{ConstantExpr, Expr as Expr0, ExprView, OpExpr, OpKind, Var};
use crate::glue_interpreter::lang0::stmt::{stmt_views, Stmt as Stmt0, StmtView};
use crate::glue_interpreter::lang1::stmt::{IndexElement, Stmt};

verus! {

broadcast use vstd::std_specs::hash::group_hash_axioms;

/// A program of the language with marked loops and builds.
pub struct Ast {
    stmts: Vec<Stmt>,
}

/// The statement can be compiled: a loop prologue, a symbol or a copy.
pub open spec fn supported(s: Stmt) -> bool {
    s is ForLoopPrologue || s is Sym || s is Copy
}

/// Sets variable `v` to `e`.
pub open spec fn assign_view(v: nat, e: ExprView) -> StmtView {
    StmtView::Assign { lhs: Var(v as usize), rhs: e }
}

/// `v` less `c`.
pub open spec fn sub_view(v: nat, c: usize) -> ExprView {
    ExprView::OpExpr(OpExpr::Op { kind: OpKind::Sub, lhs: Var(v as usize), rhs: ConstantExpr::Constant(c) })
}

/// What a path compiles to, the next fresh variable being `n`: the
/// statements before its copy, the expressions of the copy, and the next
/// fresh variable after it. A position from the start or in a variable is
/// taken as it is; a position back from the end gets the next variable,
/// set to the length of the compound the path so far leads to, less the
/// position.
pub open spec fn compile_path(els: Seq<IndexElement>, n: nat) -> (Seq<StmtView>, Seq<ConstantExpr>, nat)
    decreases els.len(),
{
    if els.len() == 0 {
        (Seq::empty(), Seq::empty(), n)
    } else {
        let (ss, es, m) = compile_path(els.drop_last(), n);
        match els.last() {
            IndexElement::ZeroPlus(zp) => (ss, es.push(ConstantExpr::Constant(zp)), m),
            IndexElement::LenMinus(lm) => (
                ss.push(assign_view(m, ExprView::Len(es))).push(assign_view(m, sub_view(m, lm))),
                es.push(ConstantExpr::Var(Var(m as usize))),
                m + 1,
            ),
            IndexElement::Var(v) => (ss, es.push(ConstantExpr::Var(Var(v))), m),
        }
    }
}

/// What a statement compiles to, the next fresh variable being `n`, and
/// the next fresh variable after it. A loop prologue sets its induction
/// variable to its start and a fresh variable to the length of the compound
/// it runs over, less its end; a symbol is pushed; a copy is compiled by
/// [`compile_path`].
pub open spec fn compile_stmt(s: Stmt, n: nat) -> (Seq<StmtView>, nat) {
    match s {
        Stmt::ForLoopPrologue { induction_var, start, end_at_len_minus, elements } => {
            let head = seq![
                StmtView::Assign {
                    lhs: induction_var,
                    rhs: ExprView::OpExpr(OpExpr::ConstantExpr(ConstantExpr::Constant(start))),
                },
                assign_view(n, ExprView::Len(elements@)),
            ];
            (if end_at_len_minus > 0 {
                head.push(assign_view(n, sub_view(n, end_at_len_minus)))
            } else {
                head
            }, n + 1)
        },
        Stmt::Sym(k) => (seq![StmtView::Sym(k)], n),
        Stmt::Copy(index) => {
            let (ss, es, m) = compile_path(index.spec_elements(), n);
            (ss.push(StmtView::Copy(es)), m)
        },
        _ => (Seq::empty(), n),
    }
}

/// What the statements compile to, one after the other, the next fresh
/// variable being `n`, and the next fresh variable after them.
pub open spec fn compile_stmts(ss: Seq<Stmt>, n: nat) -> (Seq<StmtView>, nat)
    decreases ss.len(),
{
    if ss.len() == 0 {
        (Seq::empty(), n)
    } else {
        let (a, m) = compile_stmts(ss.drop_last(), n);
        let (b, k) = compile_stmt(ss.last(), m);
        (a + b, k)
    }
}

/// The variables in use are those below `n`.
spec fn vars_below(vars: Set<usize>, n: nat) -> bool {
    &&& vars.finite()
    &&& vars.len() == n
    &&& forall|x: usize| #[trigger] vars.contains(x) <==> x < n
}

/// The first variable from the number in use up that is not in use, now
/// in use.
fn next_var(vars: &mut HashSet<usize>, Ghost(n): Ghost<nat>) -> (r: usize)
    requires
        vars_below(old(vars)@, n),
    ensures
        r == n,
        vars_below(final(vars)@, n + 1),
{
    let var = vars.len();
    assert(!vars@.contains(var));
    vars.insert(var);
    var
}

/// Appends a statement.
fn push_view(out: &mut Vec<Stmt0>, s: Stmt0)
    ensures
        stmt_views(final(out)@) == stmt_views(old(out)@).push(s@),
{
    out.push(s);
    assert(stmt_views(out@) =~= stmt_views(old(out)@).push(s@));
}

/// A copy of the expressions.
fn copy_exprs(v: &Vec<ConstantExpr>) -> (r: Vec<ConstantExpr>)
    ensures
        r@ == v@,
{
    let mut out: Vec<ConstantExpr> = Vec::new();
    let mut i: usize = 0;
    while i < v.len()
        invariant
            i <= v@.len(),
            out@ == v@.subrange(0, i as int),
        decreases v@.len() - i,
    {
        out.push(v[i]);
        i = i + 1;
    }
    assert(v@.subrange(0, v@.len() as int) == v@);
    out
}

impl Ast {
    pub closed spec fn spec_stmts(&self) -> Seq<Stmt> {
        self.stmts@
    }

    pub fn new(stmts: Vec<Stmt>) -> (r: Self)
        ensures
            r.spec_stmts() == stmts@,
    {
        Self { stmts }
    }

    /// Compiles the statements one by one to the stack language, as
    /// [`compile_stmts`] says, the fresh variables numbered from 0 up.
    pub fn compile(self) -> (r: Ast0)
        requires
            forall|i: int| 0 <= i < self.spec_stmts().len() ==> supported(#[trigger] self.spec_stmts()[i]),
        ensures
            stmt_views(r.spec_stmts()) == compile_stmts(self.spec_stmts(), 0).0,
    {
        let ghost all = self.stmts@;
        let mut vars: HashSet<usize> = HashSet::new();
        let ghost mut n: nat = 0;
        let mut out: Vec<Stmt0> = Vec::new();
        assert(vars@ =~= Set::<usize>::empty());
        assert(stmt_views(out@) =~= Seq::<StmtView>::empty());
        assert forall|i: int| 0 <= i < all.len() implies supported(#[trigger] all[i]) by {
            assert(self.spec_stmts()[i] == all[i]);
        }
        let mut done: usize = 0;
        let total = self.stmts.len();
        assert(all.take(0) =~= Seq::<Stmt>::empty());
        while done < total
            invariant
                total == all.len(),
                all == self.stmts@,
                done <= total,
                forall|i: int| 0 <= i < all.len() ==> supported(#[trigger] all[i]),
                vars_below(vars@, n),
                stmt_views(out@) == compile_stmts(all.take(done as int), 0).0,
                n == compile_stmts(all.take(done as int), 0).1,
            decreases total - done,
        {
            let ghost before = stmt_views(out@);
            let ghost n_before = n;
            let stmt = &self.stmts[done];
            assert(*stmt == all[done as int]);
            assert(supported(all[done as int]));
            proof {
                assert(all.take(done + 1).drop_last() =~= all.take(done as int));
                assert(all.take(done + 1).last() == all[done as int]);
            }
            match stmt {
                Stmt::ForLoopPrologue { induction_var, start, end_at_len_minus, elements } => {
                    let end_var = next_var(&mut vars, Ghost(n));
                    proof {
                        n = n + 1;
                    }
                    push_view(&mut out, Stmt0::assign(induction_var.0, Expr0::constant(*start)));
                    push_view(&mut out, Stmt0::assign(end_var, Expr0::len(copy_exprs(elements))));
                    if *end_at_len_minus > 0 {
                        push_view(&mut out, Stmt0::assign(end_var, Expr0::sub(end_var, ConstantExpr::constant(*end_at_len_minus))));
                    }
                    assert(stmt_views(out@) =~= before + compile_stmt(all[done as int], n_before).0);
                },
                Stmt::Sym(key) => {
                    push_view(&mut out, Stmt0::sym(*key));
                    assert(stmt_views(out@) =~= before + compile_stmt(all[done as int], n_before).0);
                },
                Stmt::Copy(index) => {
                    let els = index.elements();
                    let mut constant_exprs: Vec<ConstantExpr> = Vec::new();
                    let mut i: usize = 0;
                    assert(els@.take(0) =~= Seq::<IndexElement>::empty());
                    assert(before =~= before + compile_path(els@.take(0), n_before).0);
                    while i < els.len()
                        invariant
                            i <= els@.len(),
                            vars_below(vars@, n),
                            stmt_views(out@) == before + compile_path(els@.take(i as int), n_before).0,
                            constant_exprs@ == compile_path(els@.take(i as int), n_before).1,
                            n == compile_path(els@.take(i as int), n_before).2,
                        decreases els@.len() - i,
                    {
                        proof {
                            assert(els@.take(i + 1).drop_last() =~= els@.take(i as int));
                            assert(els@.take(i + 1).last() == els@[i as int]);
                        }
                        let ghost pre = compile_path(els@.take(i as int), n_before);
                        match els[i] {
                            IndexElement::ZeroPlus(zp) => constant_exprs.push(ConstantExpr::constant(zp)),
                            IndexElement::LenMinus(lm) => {
                                let var = next_var(&mut vars, Ghost(n));
                                proof {
                                    n = n + 1;
                                }
                                push_view(&mut out, Stmt0::assign(var, Expr0::len(copy_exprs(&constant_exprs))));
                                push_view(&mut out, Stmt0::assign(var, Expr0::sub(var, ConstantExpr::constant(lm))));
                                constant_exprs.push(ConstantExpr::var(var));
                                assert(stmt_views(out@) =~= before + compile_path(els@.take(i + 1), n_before).0);
                            },
                            IndexElement::Var(v) => constant_exprs.push(ConstantExpr::var(v)),
                        }
                        i = i + 1;
                    }
                    assert(els@.take(els@.len() as int) =~= els@);
                    push_view(&mut out, Stmt0::copy(constant_exprs));
                    assert(stmt_views(out@) =~= before + compile_stmt(all[done as int], n_before).0);
                },
                _ => {
                    assert(false);
                },
            }
            done = done + 1;
        }
        assert(all.take(total as int) =~= all);
        Ast0::new(out)
    }
}

} // verus!
