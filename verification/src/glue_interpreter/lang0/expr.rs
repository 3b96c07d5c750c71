use vstd::prelude::*;

use crate::glue_interpreter::index::zp_lookup;
use crate::glue_interpreter::storage::{decimal, index_path, push_decimal, Storage, StorageKey, TermView};

verus! {

/// A variable, by its number.
#[derive(Clone, Copy, Debug, PartialEq, Eq, Hash)]
pub struct Var(pub usize);

impl Var {
    /// The variable exists.
    pub open spec fn ok(&self, vars: Seq<usize>) -> bool {
        self.0 < vars.len()
    }

    /// The variable's value.
    pub open spec fn value(&self, vars: Seq<usize>) -> usize {
        vars[self.0 as int]
    }

    pub fn eval(&self, variables: &[usize]) -> (r: usize)
        requires
            self.ok(variables@),
        ensures
            r == self.value(variables@),
    {
        variables[self.0]
    }
}

/// A variable or a constant.
#[derive(Clone, Copy, Debug, PartialEq, Eq, Hash)]
pub enum ConstantExpr {
    Var(Var),
    Constant(usize),
}

impl ConstantExpr {
    /// The expression can be evaluated.
    pub open spec fn ok(&self, vars: Seq<usize>) -> bool {
        match self {
            ConstantExpr::Var(v) => v.ok(vars),
            ConstantExpr::Constant(_) => true,
        }
    }

    /// The expression's value.
    pub open spec fn value(&self, vars: Seq<usize>) -> usize {
        match self {
            ConstantExpr::Var(v) => v.value(vars),
            ConstantExpr::Constant(c) => *c,
        }
    }

    pub fn var(v: usize) -> (r: Self)
        ensures
            r == ConstantExpr::Var(Var(v)),
    {
        Self::Var(Var(v))
    }

    pub fn constant(c: usize) -> (r: Self)
        ensures
            r == ConstantExpr::Constant(c),
    {
        Self::Constant(c)
    }

    pub fn eval(&self, variables: &[usize]) -> (r: usize)
        requires
            self.ok(variables@),
        ensures
            r == self.value(variables@),
    {
        match self {
            ConstantExpr::Var(v) => v.eval(variables),
            ConstantExpr::Constant(c) => *c,
        }
    }
}

/// Which arithmetic operation an [`OpExpr`] applies.
#[derive(Clone, Copy, Debug, PartialEq, Eq, Hash)]
pub enum OpKind {
    Add,
    Sub,
}

/// A variable or a constant, or the sum or difference of a variable and
/// one of them.
#[derive(Clone, Copy, Debug, PartialEq, Eq, Hash)]
pub enum OpExpr {
    ConstantExpr(ConstantExpr),
    Op { kind: OpKind, lhs: Var, rhs: ConstantExpr },
}

impl OpExpr {
    /// The expression can be evaluated: its operands exist, a sum does not
    /// overflow and a difference is not negative.
    pub open spec fn ok(&self, vars: Seq<usize>) -> bool {
        match self {
            OpExpr::ConstantExpr(ce) => ce.ok(vars),
            OpExpr::Op { kind, lhs, rhs } => {
                &&& lhs.ok(vars)
                &&& rhs.ok(vars)
                &&& match kind {
                    OpKind::Add => lhs.value(vars) + rhs.value(vars) <= usize::MAX,
                    OpKind::Sub => lhs.value(vars) >= rhs.value(vars),
                }
            },
        }
    }

    /// The expression's value.
    pub open spec fn value(&self, vars: Seq<usize>) -> usize {
        match self {
            OpExpr::ConstantExpr(ce) => ce.value(vars),
            OpExpr::Op { kind, lhs, rhs } => match kind {
                OpKind::Add => (lhs.value(vars) + rhs.value(vars)) as usize,
                OpKind::Sub => (lhs.value(vars) - rhs.value(vars)) as usize,
            },
        }
    }

    pub fn var(v: usize) -> (r: Self)
        ensures
            r == OpExpr::ConstantExpr(ConstantExpr::Var(Var(v))),
    {
        Self::ConstantExpr(ConstantExpr::var(v))
    }

    pub fn constant(c: usize) -> (r: Self)
        ensures
            r == OpExpr::ConstantExpr(ConstantExpr::Constant(c)),
    {
        Self::ConstantExpr(ConstantExpr::constant(c))
    }

    pub fn add(var: usize, e: ConstantExpr) -> (r: Self)
        ensures
            r == (OpExpr::Op { kind: OpKind::Add, lhs: Var(var), rhs: e }),
    {
        Self::Op { kind: OpKind::Add, lhs: Var(var), rhs: e }
    }

    pub fn sub(var: usize, e: ConstantExpr) -> (r: Self)
        ensures
            r == (OpExpr::Op { kind: OpKind::Sub, lhs: Var(var), rhs: e }),
    {
        Self::Op { kind: OpKind::Sub, lhs: Var(var), rhs: e }
    }

    pub fn eval(&self, variables: &[usize]) -> (r: usize)
        requires
            self.ok(variables@),
        ensures
            r == self.value(variables@),
    {
        match self {
            OpExpr::ConstantExpr(ve) => ve.eval(variables),
            OpExpr::Op { kind, lhs, rhs } => {
                let lhs = lhs.eval(variables);
                let rhs = rhs.eval(variables);
                match kind {
                    OpKind::Add => lhs.checked_add(rhs).unwrap(),
                    OpKind::Sub => lhs.checked_sub(rhs).unwrap(),
                }
            },
        }
    }
}

/// A path into a term: one index per level.
#[derive(Debug, PartialEq, Eq, Hash)]
pub struct Index {
    elements: Vec<ConstantExpr>,
}

/// The values of the expressions `elements`.
pub open spec fn values_of(elements: Seq<ConstantExpr>, vars: Seq<usize>) -> Seq<usize> {
    elements.map_values(|e: ConstantExpr| e.value(vars))
}

impl Index {
    pub closed spec fn spec_elements(&self) -> Seq<ConstantExpr> {
        self.elements@
    }

    /// Every element can be evaluated.
    pub open spec fn ok(&self, vars: Seq<usize>) -> bool {
        forall|i: int| 0 <= i < self.spec_elements().len() ==> (#[trigger] self.spec_elements()[i]).ok(vars)
    }

    /// The key this path leads to from `src`, if any.
    pub open spec fn target(&self, terms: Map<u64, TermView>, src: u64, vars: Seq<usize>) -> Option<u64> {
        index_path(terms, src, values_of(self.spec_elements(), vars))
    }

    pub fn new(elements: Vec<ConstantExpr>) -> (r: Self)
        ensures
            r.spec_elements() == elements@,
    {
        Self { elements }
    }

    /// The key this path leads to from `src`.
    pub fn eval(&self, variables: &[usize], storage: &Storage, src: StorageKey) -> (r: StorageKey)
        requires
            storage.wf(),
            storage.holds(src),
            self.ok(variables@),
            self.target(storage.spec_terms(), src@, variables@) is Some,
        ensures
            r@ == self.target(storage.spec_terms(), src@, variables@)->0,
            storage.holds(r),
    {
        let mut values: Vec<usize> = Vec::new();
        let mut i: usize = 0;
        while i < self.elements.len()
            invariant
                i <= self.elements@.len(),
                self.ok(variables@),
                values@ == values_of(self.elements@, variables@).subrange(0, i as int),
            decreases self.elements@.len() - i,
        {
            assert(self.spec_elements()[i as int].ok(variables@));
            values.push(self.elements[i].eval(variables));
            i = i + 1;
        }
        assert(values@ =~= values_of(self.elements@, variables@));
        zp_lookup(values.as_slice(), storage, src)
    }
}

/// An expression with its path, if any, as a sequence.
pub enum ExprView {
    OpExpr(OpExpr),
    Len(Seq<ConstantExpr>),
}

impl View for Expr {
    type V = ExprView;

    open spec fn view(&self) -> ExprView {
        match self {
            Expr::OpExpr(oe) => ExprView::OpExpr(*oe),
            Expr::Len(index) => ExprView::Len(index.spec_elements()),
        }
    }
}

/// An expression of the language: arithmetic, or the length of the
/// compound a path leads to.
#[derive(Debug, PartialEq, Eq)]
pub enum Expr {
    OpExpr(OpExpr),
    Len(Index),
}

impl Expr {
    /// The expression can be evaluated on the term at `src`.
    pub open spec fn ok(&self, terms: Map<u64, TermView>, src: u64, vars: Seq<usize>) -> bool {
        match self {
            Expr::OpExpr(oe) => oe.ok(vars),
            Expr::Len(index) => {
                &&& index.ok(vars)
                &&& index.target(terms, src, vars) matches Some(t)
                &&& terms.contains_key(t)
                &&& terms[t] is Compound
            },
        }
    }

    /// The expression's value on the term at `src`.
    pub open spec fn value(&self, terms: Map<u64, TermView>, src: u64, vars: Seq<usize>) -> usize {
        match self {
            Expr::OpExpr(oe) => oe.value(vars),
            Expr::Len(index) => match terms[index.target(terms, src, vars)->0] {
                TermView::Compound(ks) => ks.len() as usize,
                _ => 0,
            },
        }
    }

    pub fn var(v: usize) -> (r: Self)
        ensures
            r == Expr::OpExpr(OpExpr::ConstantExpr(ConstantExpr::Var(Var(v)))),
    {
        Self::OpExpr(OpExpr::var(v))
    }

    pub fn constant(c: usize) -> (r: Self)
        ensures
            r == Expr::OpExpr(OpExpr::ConstantExpr(ConstantExpr::Constant(c))),
    {
        Self::OpExpr(OpExpr::constant(c))
    }

    pub fn add(var: usize, e: ConstantExpr) -> (r: Self)
        ensures
            r == Expr::OpExpr(OpExpr::Op { kind: OpKind::Add, lhs: Var(var), rhs: e }),
    {
        Self::OpExpr(OpExpr::add(var, e))
    }

    pub fn sub(var: usize, e: ConstantExpr) -> (r: Self)
        ensures
            r == Expr::OpExpr(OpExpr::Op { kind: OpKind::Sub, lhs: Var(var), rhs: e }),
    {
        Self::OpExpr(OpExpr::sub(var, e))
    }

    pub fn len(elements: Vec<ConstantExpr>) -> (r: Self)
        ensures
            r matches Expr::Len(index) && index.spec_elements() == elements@,
    {
        Self::Len(Index { elements })
    }

    pub fn eval(&self, variables: &[usize], storage: &Storage, src: StorageKey) -> (r: usize)
        requires
            storage.wf(),
            storage.holds(src),
            self.ok(storage.spec_terms(), src@, variables@),
        ensures
            r == self.value(storage.spec_terms(), src@, variables@),
    {
        match self {
            Expr::OpExpr(oe) => oe.eval(variables),
            Expr::Len(index) => storage.get_compound(index.eval(variables, storage, src)).unwrap().keys().len(),
        }
    }
}


/// How a variable is shown: `v` and its number.
pub open spec fn var_text(v: Var) -> Seq<char> {
    seq!['v'] + decimal(v.0 as nat)
}

/// How a constant expression is shown: the variable, or the number.
pub open spec fn constant_text(e: ConstantExpr) -> Seq<char> {
    match e {
        ConstantExpr::Var(v) => var_text(v),
        ConstantExpr::Constant(c) => decimal(c as nat),
    }
}

/// How an arithmetic expression is shown: the constant expression, or the
/// variable, ` + ` or ` - `, and the constant expression.
pub open spec fn op_text(e: OpExpr) -> Seq<char> {
    match e {
        OpExpr::ConstantExpr(c) => constant_text(c),
        OpExpr::Op { kind, lhs, rhs } => var_text(lhs) + (match kind {
            OpKind::Add => seq![' ', '+', ' '],
            OpKind::Sub => seq![' ', '-', ' '],
        }) + constant_text(rhs),
    }
}

/// The constant expressions shown one after the other, separated by `, `.
pub open spec fn constants_text(es: Seq<ConstantExpr>) -> Seq<char>
    decreases es.len(),
{
    if es.len() == 0 {
        Seq::empty()
    } else if es.len() == 1 {
        constant_text(es[0])
    } else {
        constants_text(es.drop_last()) + seq![',', ' '] + constant_text(es.last())
    }
}

/// How a path is shown: its elements in square brackets.
pub open spec fn index_text(es: Seq<ConstantExpr>) -> Seq<char> {
    seq!['['] + constants_text(es) + seq![']']
}

/// How an expression is shown: the arithmetic expression, or `len` and the
/// path.
pub open spec fn expr_text(e: ExprView) -> Seq<char> {
    match e {
        ExprView::OpExpr(o) => op_text(o),
        ExprView::Len(es) => seq!['l', 'e', 'n', ' '] + index_text(es),
    }
}

/// Appends how `v` is shown.
pub(crate) fn push_var(out: &mut Vec<char>, v: Var)
    ensures
        final(out)@ == old(out)@ + var_text(v),
{
    out.push('v');
    push_decimal(out, v.0);
    assert(out@ =~= old(out)@ + var_text(v));
}

/// Appends how `e` is shown.
pub(crate) fn push_constant(out: &mut Vec<char>, e: ConstantExpr)
    ensures
        final(out)@ == old(out)@ + constant_text(e),
{
    match e {
        ConstantExpr::Var(v) => push_var(out, v),
        ConstantExpr::Constant(c) => push_decimal(out, c),
    }
}

/// Appends how `e` is shown.
fn push_op(out: &mut Vec<char>, e: OpExpr)
    ensures
        final(out)@ == old(out)@ + op_text(e),
{
    match e {
        OpExpr::ConstantExpr(c) => push_constant(out, c),
        OpExpr::Op { kind, lhs, rhs } => {
            let ghost o = out@;
            push_var(out, lhs);
            out.push(' ');
            match kind {
                OpKind::Add => out.push('+'),
                OpKind::Sub => out.push('-'),
            }
            out.push(' ');
            let ghost m = out@;
            push_constant(out, rhs);
            assert(out@ =~= old(out)@ + op_text(e));
        },
    }
}

/// Appends how the path of `es` is shown.
fn push_index(out: &mut Vec<char>, es: &[ConstantExpr])
    ensures
        final(out)@ == old(out)@ + index_text(es@),
{
    out.push('[');
    let ghost start = out@;
    let mut i: usize = 0;
    assert(es@.take(0) =~= Seq::<ConstantExpr>::empty());
    while i < es.len()
        invariant
            i <= es@.len(),
            out@ == start + constants_text(es@.take(i as int)),
        decreases es@.len() - i,
    {
        let ghost before = out@;
        if i > 0 {
            out.push(',');
            out.push(' ');
        }
        push_constant(out, es[i]);
        proof {
            let t = es@.take(i + 1);
            assert(t.drop_last() =~= es@.take(i as int));
            assert(t.last() == es@[i as int]);
            if i == 0 {
                assert(constants_text(t) == constant_text(es@[0]));
                assert(out@ =~= start + constants_text(t));
            } else {
                assert(out@ =~= start + constants_text(t));
            }
        }
        i = i + 1;
    }
    assert(es@.take(es@.len() as int) =~= es@);
    out.push(']');
    assert(out@ =~= old(out)@ + index_text(es@));
}

impl ConstantExpr {
    /// How the expression is shown: the variable (`v` and its number), or
    /// the number.
    pub fn text(&self) -> (r: Vec<char>)
        ensures
            r@ == constant_text(*self),
    {
        let mut out: Vec<char> = Vec::new();
        push_constant(&mut out, *self);
        assert(out@ =~= constant_text(*self));
        out
    }
}

impl Index {
    /// How the path is shown: its elements in square brackets, separated
    /// by `, `.
    pub fn text(&self) -> (r: Vec<char>)
        ensures
            r@ == index_text(self.spec_elements()),
    {
        let mut out: Vec<char> = Vec::new();
        push_index(&mut out, self.elements.as_slice());
        assert(out@ =~= index_text(self.spec_elements()));
        out
    }
}

impl Expr {
    /// How the expression is shown: the arithmetic, or `len` and the path.
    pub fn text(&self) -> (r: Vec<char>)
        ensures
            r@ == expr_text(self@),
    {
        let mut out: Vec<char> = Vec::new();
        push_expr(&mut out, self);
        assert(out@ =~= expr_text(self@));
        out
    }
}

/// Appends how `e` is shown.
pub(crate) fn push_expr(out: &mut Vec<char>, e: &Expr)
    ensures
        final(out)@ == old(out)@ + expr_text(e@),
{
    match e {
        Expr::OpExpr(o) => push_op(out, *o),
        Expr::Len(index) => {
            out.push('l');
            out.push('e');
            out.push('n');
            out.push(' ');
            push_index(out, index.elements.as_slice());
            assert(out@ =~= old(out)@ + expr_text(e@));
        },
    }
}

} // verus!
