use vstd::prelude::*;

use crate::glue_interpreter::compound::Compound;
use crate::glue_interpreter::constructor::{cdenotes, cval_size, cvals_size, lemma_cdenotes_grows, CVal};
use crate::glue_interpreter::index::{compound_keys, is_compound, zp_lookup};
use crate::glue_interpreter::storage::{
    children_present, closed_terms, index_path, lemma_index_path_grows, Storage, StorageKey, Term,
    TermView,
};

verus! {

/// A number computed from variables, constants and the source term.
pub enum Expr {
    Var(VarExpr),
    Constant(ConstantExpr),
    Length(LengthExpr),
    Subtract(SubtractExpr),
    Multiply(MultiplyExpr),
}

impl Expr {
    pub fn var(v: usize) -> (r: Self)
        ensures
            r == Expr::Var(VarExpr { var: v }),
    {
        Self::Var(VarExpr { var: v })
    }

    pub fn constant(v: usize) -> (r: Self)
        ensures
            r == Expr::Constant(ConstantExpr { constant: v }),
    {
        Self::Constant(ConstantExpr { constant: v })
    }

    pub fn length(of: IndexExpr) -> (r: Self)
        ensures
            r == Expr::Length(LengthExpr { of: Box::new(of) }),
    {
        Self::Length(LengthExpr { of: Box::new(of) })
    }

    pub fn subtract(lhs: Expr, rhs: Expr) -> (r: Self)
        ensures
            r == Expr::Subtract(SubtractExpr { lhs: Box::new(lhs), rhs: Box::new(rhs) }),
    {
        Self::Subtract(SubtractExpr { lhs: Box::new(lhs), rhs: Box::new(rhs) })
    }

    pub fn multiply(lhs: Expr, rhs: Expr) -> (r: Self)
        ensures
            r == Expr::Multiply(MultiplyExpr { lhs: Box::new(lhs), rhs: Box::new(rhs) }),
    {
        Self::Multiply(MultiplyExpr { lhs: Box::new(lhs), rhs: Box::new(rhs) })
    }
}

/// The value of a variable.
pub struct VarExpr {
    pub var: usize,
}

impl VarExpr {
    pub fn new(var: usize) -> (r: Self)
        ensures
            r.var == var,
    {
        Self { var }
    }
}

/// A constant.
pub struct ConstantExpr {
    pub constant: usize,
}

impl ConstantExpr {
    pub fn new(constant: usize) -> (r: Self)
        ensures
            r.constant == constant,
    {
        Self { constant }
    }
}

/// The length of the compound a path leads to.
pub struct LengthExpr {
    pub of: Box<IndexExpr>,
}

impl LengthExpr {
    pub fn new(of: Box<IndexExpr>) -> (r: Self)
        ensures
            r.of == of,
    {
        Self { of }
    }
}

/// A path into the source term, one computed position per level.
pub struct IndexExpr {
    pub indices: Vec<Expr>,
}

impl IndexExpr {
    pub fn new(indices: Vec<Expr>) -> (r: Self)
        ensures
            r.indices == indices,
    {
        Self { indices }
    }
}

/// A difference.
pub struct SubtractExpr {
    pub lhs: Box<Expr>,
    pub rhs: Box<Expr>,
}

impl SubtractExpr {
    pub fn new(lhs: Box<Expr>, rhs: Box<Expr>) -> (r: Self)
        ensures
            r.lhs == lhs && r.rhs == rhs,
    {
        Self { lhs, rhs }
    }
}

/// A product.
pub struct MultiplyExpr {
    pub lhs: Box<Expr>,
    pub rhs: Box<Expr>,
}

impl MultiplyExpr {
    pub fn new(lhs: Box<Expr>, rhs: Box<Expr>) -> (r: Self)
        ensures
            r.lhs == lhs && r.rhs == rhs,
    {
        Self { lhs, rhs }
    }
}

/// A step of building a term.
pub enum Instruction {
    Symbol(SymbolInstruction),
    Compound(CompoundInstruction),
    ForLoop(ForLoopInstruction),
    Copy(CopyInstruction),
}

impl Instruction {
    pub fn symbol(key: StorageKey) -> (r: Self)
        ensures
            r == Instruction::Symbol(SymbolInstruction { symbol: key }),
    {
        Self::Symbol(SymbolInstruction { symbol: key })
    }

    pub fn compound(length: Expr) -> (r: Self)
        ensures
            r == Instruction::Compound(CompoundInstruction { length }),
    {
        Self::Compound(CompoundInstruction { length })
    }

    pub fn for_loop(var: usize, start: Expr, end: Expr, body: Vec<Instruction>) -> (r: Self)
        ensures
            r == Instruction::ForLoop(ForLoopInstruction { var: VarExpr { var }, start, end, body }),
    {
        Self::ForLoop(ForLoopInstruction { var: VarExpr { var }, start, end, body })
    }

    pub fn copy(src: IndexExpr) -> (r: Self)
        ensures
            r == Instruction::Copy(CopyInstruction { src }),
    {
        Self::Copy(CopyInstruction { src })
    }
}

/// Pushes a symbol's key.
pub struct SymbolInstruction {
    pub symbol: StorageKey,
}

/// Replaces keys of the data stack by a new compound of them.
pub struct CompoundInstruction {
    pub length: Expr,
}

/// Sets a variable to the start of a range, for a body.
pub struct ForLoopInstruction {
    pub var: VarExpr,
    pub start: Expr,
    pub end: Expr,
    pub body: Vec<Instruction>,
}

/// Pushes the key a path leads to.
pub struct CopyInstruction {
    pub src: IndexExpr,
}

/// A list of instructions that builds a term.
pub struct Constructor {
    instructions: Vec<Instruction>,
}

impl Constructor {
    pub closed spec fn spec_instructions(&self) -> Seq<Instruction> {
        self.instructions@
    }

    pub fn new(instructions: Vec<Instruction>) -> (r: Self)
        ensures
            r.spec_instructions() == instructions@,
    {
        Self { instructions }
    }
}

/// How deep the expression nests.
pub open spec fn expr_height(e: Expr) -> nat
    decreases e, 0nat,
{
    match e {
        Expr::Length(l) => index_height(*l.of) + 1,
        Expr::Subtract(s) => {
            let a = expr_height(*s.lhs);
            let b = expr_height(*s.rhs);
            (if a > b { a } else { b }) + 1
        },
        Expr::Multiply(m) => {
            let a = expr_height(*m.lhs);
            let b = expr_height(*m.rhs);
            (if a > b { a } else { b }) + 1
        },
        _ => 0,
    }
}

/// How deep the path's expressions nest.
pub open spec fn index_height(ie: IndexExpr) -> nat
    decreases ie, 0nat,
{
    exprs_height(ie.indices@) + 1
}

/// How deep the expressions nest.
pub open spec fn exprs_height(es: Seq<Expr>) -> nat
    decreases es, 0nat,
{
    if es.len() == 0 {
        0
    } else {
        let a = exprs_height(es.drop_last());
        let b = expr_height(es.last()) + 1;
        if a > b {
            a
        } else {
            b
        }
    }
}

proof fn lemma_exprs_height(es: Seq<Expr>, i: int)
    requires
        0 <= i < es.len(),
    ensures
        expr_height(es[i]) < exprs_height(es),
    decreases es.len(),
{
    if i < es.len() - 1 {
        lemma_exprs_height(es.drop_last(), i);
        assert(es.drop_last()[i] == es[i]);
    }
}

/// The value of `e` with the variables `vars`, paths taken from the term
/// at `src`; `None` where a variable is missing, a path does not lead to a
/// compound, a difference is negative or a product overflows.
pub open spec fn expr_value(e: Expr, terms: Map<u64, TermView>, src: u64, vars: Seq<usize>) -> Option<usize>
    decreases e, 0nat,
{
    match e {
        Expr::Var(v) => if v.var < vars.len() {
            Some(vars[v.var as int])
        } else {
            None
        },
        Expr::Constant(c) => Some(c.constant),
        Expr::Length(l) => match index_target(*l.of, terms, src, vars) {
            Some(t) => if is_compound(terms, t) && compound_keys(terms, t).len() <= usize::MAX {
                Some(compound_keys(terms, t).len() as usize)
            } else {
                None
            },
            None => None,
        },
        Expr::Subtract(s) => match (expr_value(*s.lhs, terms, src, vars), expr_value(*s.rhs, terms, src, vars)) {
            (Some(a), Some(b)) => if a >= b {
                Some((a - b) as usize)
            } else {
                None
            },
            _ => None,
        },
        Expr::Multiply(m) => match (expr_value(*m.lhs, terms, src, vars), expr_value(*m.rhs, terms, src, vars)) {
            (Some(a), Some(b)) => if a * b <= usize::MAX {
                Some((a * b) as usize)
            } else {
                None
            },
            _ => None,
        },
    }
}

/// The product of two expressions.
pub open spec fn times(a: Expr, b: Expr) -> Expr {
    Expr::Multiply(MultiplyExpr { lhs: Box::new(a), rhs: Box::new(b) })
}

/// The difference of two expressions.
pub open spec fn minus(a: Expr, b: Expr) -> Expr {
    Expr::Subtract(SubtractExpr { lhs: Box::new(a), rhs: Box::new(b) })
}

/// The constant `c` as an expression.
pub open spec fn constant(c: usize) -> Expr {
    Expr::Constant(ConstantExpr { constant: c })
}

/// A product is the arithmetic product of its operands' values: it has a
/// value exactly when both operands have one and their product fits in a
/// `usize`. So it does not depend on the order of the operands, one times
/// anything is that thing, and zero times anything with a value is zero.
pub proof fn lemma_product_laws(a: Expr, b: Expr, terms: Map<u64, TermView>, src: u64, vars: Seq<usize>)
    ensures
        expr_value(times(a, b), terms, src, vars) is Some <==> {
            &&& expr_value(a, terms, src, vars) is Some
            &&& expr_value(b, terms, src, vars) is Some
            &&& expr_value(a, terms, src, vars)->0 * expr_value(b, terms, src, vars)->0 <= usize::MAX
        },
        expr_value(times(a, b), terms, src, vars) matches Some(v) ==> v == expr_value(a, terms, src, vars)->0
            * expr_value(b, terms, src, vars)->0,
        expr_value(times(a, b), terms, src, vars) == expr_value(times(b, a), terms, src, vars),
        expr_value(times(constant(1), a), terms, src, vars) == expr_value(a, terms, src, vars),
        expr_value(a, terms, src, vars) is Some ==> expr_value(times(constant(0), a), terms, src, vars) == Some(0usize),
{
    let va = expr_value(a, terms, src, vars);
    let vb = expr_value(b, terms, src, vars);
    if va is Some && vb is Some {
        let x = va->0;
        let y = vb->0;
        assert(x * y == y * x) by (nonlinear_arith);
        assert(1 * x == x);
        assert(0 * x == 0);
    }
    assert(expr_value(constant(1), terms, src, vars) == Some(1usize));
    assert(expr_value(constant(0), terms, src, vars) == Some(0usize));
    if va is Some {
        let x = va->0;
        assert(1 * x == x);
        assert(0 * x == 0);
        assert(expr_value(times(constant(1), a), terms, src, vars) == Some(x));
        assert(expr_value(times(constant(0), a), terms, src, vars) == Some(0usize));
    } else {
        assert(expr_value(times(constant(1), a), terms, src, vars) is None);
    }
}

/// A difference is what, added to the second operand's value, gives the
/// first operand's value; it has a value exactly when both operands have
/// one and the second is not larger.
pub proof fn lemma_difference_law(a: Expr, b: Expr, terms: Map<u64, TermView>, src: u64, vars: Seq<usize>)
    ensures
        expr_value(minus(a, b), terms, src, vars) is Some <==> {
            &&& expr_value(a, terms, src, vars) is Some
            &&& expr_value(b, terms, src, vars) is Some
            &&& expr_value(b, terms, src, vars)->0 <= expr_value(a, terms, src, vars)->0
        },
        expr_value(minus(a, b), terms, src, vars) matches Some(v) ==> v + expr_value(b, terms, src, vars)->0
            == expr_value(a, terms, src, vars)->0,
{
}

/// The values of the expressions, all taken from the term at `src`.
pub open spec fn exprs_values(es: Seq<Expr>, terms: Map<u64, TermView>, src: u64, vars: Seq<usize>) -> Option<Seq<usize>>
    decreases es, 0nat,
{
    if es.len() == 0 {
        Some(Seq::empty())
    } else {
        match (exprs_values(es.drop_last(), terms, src, vars), expr_value(es.last(), terms, src, vars)) {
            (Some(a), Some(v)) => Some(a.push(v)),
            _ => None,
        }
    }
}

/// The key the path leads to from `src`, each position computed from the
/// term at `src`.
pub open spec fn index_target(ie: IndexExpr, terms: Map<u64, TermView>, src: u64, vars: Seq<usize>) -> Option<u64>
    decreases ie, 0nat,
{
    match exprs_values(ie.indices@, terms, src, vars) {
        Some(vs) => index_path(terms, src, vs),
        None => None,
    }
}

proof fn lemma_exprs_values_prefix(es: Seq<Expr>, terms: Map<u64, TermView>, src: u64, vars: Seq<usize>, i: int)
    requires
        exprs_values(es, terms, src, vars) is Some,
        0 <= i <= es.len(),
    ensures
        exprs_values(es.take(i), terms, src, vars) is Some,
    decreases es.len() - i,
{
    if i == es.len() {
        assert(es.take(i) =~= es);
    } else {
        lemma_exprs_values_prefix(es, terms, src, vars, i + 1);
        assert(es.take(i + 1).drop_last() =~= es.take(i));
    }
}

/// Computes [`expr_value`].
pub fn interpret_expr(expr: &Expr, variables: &[usize], storage: &Storage, src: StorageKey) -> (r: usize)
    requires
        storage.wf(),
        storage.holds(src),
        expr_value(*expr, storage.spec_terms(), src@, variables@) is Some,
    ensures
        r == expr_value(*expr, storage.spec_terms(), src@, variables@)->0,
    decreases expr_height(*expr), 1nat,
{
    match expr {
        Expr::Var(v) => variables[v.var],
        Expr::Constant(c) => c.constant,
        Expr::Length(l) => {
            let t = interpret_index(&l.of, variables, storage, src);
            storage.get_compound(t).unwrap().keys().len()
        },
        Expr::Subtract(s) => {
            let lhs = interpret_expr(&s.lhs, variables, storage, src);
            let rhs = interpret_expr(&s.rhs, variables, storage, src);
            lhs - rhs
        },
        Expr::Multiply(m) => {
            let lhs = interpret_expr(&m.lhs, variables, storage, src);
            let rhs = interpret_expr(&m.rhs, variables, storage, src);
            lhs * rhs
        },
    }
}

/// Computes [`index_target`]: the positions are all computed from the term
/// at `src`, then followed from it.
pub fn interpret_index(expr: &IndexExpr, variables: &[usize], storage: &Storage, src: StorageKey) -> (r: StorageKey)
    requires
        storage.wf(),
        storage.holds(src),
        index_target(*expr, storage.spec_terms(), src@, variables@) is Some,
    ensures
        r@ == index_target(*expr, storage.spec_terms(), src@, variables@)->0,
        storage.holds(r),
    decreases index_height(*expr), 1nat,
{
    let ghost terms = storage.spec_terms();
    let ghost es = expr.indices@;
    let mut values: Vec<usize> = Vec::new();
    let mut i: usize = 0;
    assert(es.take(0) =~= Seq::<Expr>::empty());
    while i < expr.indices.len()
        invariant
            storage.wf(),
            storage.holds(src),
            terms == storage.spec_terms(),
            es == expr.indices@,
            i <= es.len(),
            exprs_values(es, terms, src@, variables@) is Some,
            exprs_values(es.take(i as int), terms, src@, variables@) == Some(values@),
            index_height(*expr) == exprs_height(es) + 1,
        decreases es.len() - i,
    {
        proof {
            lemma_exprs_values_prefix(es, terms, src@, variables@, i + 1);
            assert(es.take(i + 1).drop_last() =~= es.take(i as int));
            assert(es.take(i + 1).last() == es[i as int]);
            lemma_exprs_height(es, i as int);
        }
        let v = interpret_expr(&expr.indices[i], variables, storage, src);
        values.push(v);
        i = i + 1;
    }
    assert(es.take(es.len() as int) =~= es);
    zp_lookup(values.as_slice(), storage, src)
}

/// The data stack after one instruction, with `terms` the store when the
/// run began and `src` the source term; `None` where the instruction
/// fails. There are no variables: a loop fails when it sets its variable,
/// and a copy is not supported.
pub open spec fn c2_step(i: Instruction, terms: Map<u64, TermView>, src: u64, stack: Seq<CVal>) -> Option<Seq<CVal>> {
    match i {
        Instruction::Symbol(s) => if terms.contains_key(s.symbol@) {
            Some(stack.push(CVal::Key(s.symbol@)))
        } else {
            None
        },
        Instruction::Compound(c) => match expr_value(c.length, terms, src, Seq::empty()) {
            Some(n) => if n <= stack.len() {
                Some(stack.skip(n as int).push(CVal::Built(stack.take(n as int).reverse())))
            } else {
                None
            },
            None => None,
        },
        _ => None,
    }
}

/// The data stack after the instructions `instrs`.
pub open spec fn c2_run(instrs: Seq<Instruction>, terms: Map<u64, TermView>, src: u64) -> Option<Seq<CVal>>
    decreases instrs.len(),
{
    if instrs.len() == 0 {
        Some(Seq::empty())
    } else {
        match c2_run(instrs.drop_last(), terms, src) {
            Some(stack) => c2_step(instrs.last(), terms, src, stack),
            None => None,
        }
    }
}

/// How many terms the instructions store: one for each compound.
pub open spec fn c2_inserts(instrs: Seq<Instruction>) -> nat
    decreases instrs.len(),
{
    if instrs.len() == 0 {
        0
    } else {
        c2_inserts(instrs.drop_last()) + if instrs.last() is Compound {
            1nat
        } else {
            0nat
        }
    }
}

proof fn lemma_c2_prefix(instrs: Seq<Instruction>, terms: Map<u64, TermView>, src: u64, i: int)
    requires
        c2_run(instrs, terms, src) is Some,
        0 <= i <= instrs.len(),
    ensures
        c2_run(instrs.take(i), terms, src) is Some,
        c2_inserts(instrs.take(i)) <= c2_inserts(instrs),
    decreases instrs.len() - i,
{
    if i == instrs.len() {
        assert(instrs.take(i) =~= instrs);
    } else {
        lemma_c2_prefix(instrs, terms, src, i + 1);
        assert(instrs.take(i + 1).drop_last() =~= instrs.take(i));
    }
}

/// An expression has the same value on a grown store.
proof fn lemma_expr_grows(e: Expr, small: Map<u64, TermView>, big: Map<u64, TermView>, src: u64, vars: Seq<usize>)
    requires
        small.submap_of(big),
        closed_terms(small),
        small.contains_key(src),
    ensures
        expr_value(e, big, src, vars) == expr_value(e, small, src, vars),
    decreases e, 0nat,
{
    match e {
        Expr::Length(l) => {
            lemma_index_grows(*l.of, small, big, src, vars);
            if let Some(t) = index_target(*l.of, small, src, vars) {
                assert(big.contains_key(t));
                assert(big[t] == small[t]);
            }
        },
        Expr::Subtract(s) => {
            lemma_expr_grows(*s.lhs, small, big, src, vars);
            lemma_expr_grows(*s.rhs, small, big, src, vars);
        },
        Expr::Multiply(m) => {
            lemma_expr_grows(*m.lhs, small, big, src, vars);
            lemma_expr_grows(*m.rhs, small, big, src, vars);
        },
        _ => {},
    }
}

proof fn lemma_index_grows(ie: IndexExpr, small: Map<u64, TermView>, big: Map<u64, TermView>, src: u64, vars: Seq<usize>)
    requires
        small.submap_of(big),
        closed_terms(small),
        small.contains_key(src),
    ensures
        index_target(ie, big, src, vars) == index_target(ie, small, src, vars),
        index_target(ie, small, src, vars) matches Some(t) ==> small.contains_key(t),
    decreases ie, 0nat,
{
    lemma_exprs_grows(ie.indices@, small, big, src, vars);
    if let Some(vs) = exprs_values(ie.indices@, small, src, vars) {
        lemma_index_path_grows(small, big, src, vs);
    }
}

proof fn lemma_exprs_grows(es: Seq<Expr>, small: Map<u64, TermView>, big: Map<u64, TermView>, src: u64, vars: Seq<usize>)
    requires
        small.submap_of(big),
        closed_terms(small),
        small.contains_key(src),
    ensures
        exprs_values(es, big, src, vars) == exprs_values(es, small, src, vars),
    decreases es, 0nat,
{
    if es.len() > 0 {
        lemma_exprs_grows(es.drop_last(), small, big, src, vars);
        lemma_expr_grows(es.last(), small, big, src, vars);
    }
}

/// Runs the instructions on the term at `src` and puts the one term they
/// leave in its place.
pub fn interpret(constructor: &Constructor, storage: &mut Storage, src: StorageKey)
    requires
        old(storage).wf(),
        old(storage).holds(src),
        c2_run(constructor.spec_instructions(), old(storage).spec_terms(), src@) matches Some(stack) && stack.len() == 1,
        old(storage).has_room(c2_inserts(constructor.spec_instructions())),
    ensures
        final(storage).wf(),
        exists|mid: Map<u64, TermView>, r: u64| {
            &&& old(storage).spec_terms().submap_of(mid)
            &&& mid.contains_key(r)
            &&& #[trigger] cdenotes(mid, r, c2_run(constructor.spec_instructions(), old(storage).spec_terms(), src@)->0[0])
            &&& final(storage).spec_terms() == mid.insert(src@, mid[r])
        },
        final(storage).spec_fixed() == old(storage).spec_fixed(),
        final(storage).spec_rules() == old(storage).spec_rules(),
{
    let ghost terms0 = storage.spec_terms();
    let ghost ins = constructor.instructions@;
    let mut data_stack: Vec<StorageKey> = Vec::new();
    let ghost mut vals: Seq<CVal> = Seq::empty();
    let mut i: usize = 0;
    assert(ins.take(0) =~= Seq::<Instruction>::empty());
    while i < constructor.instructions.len()
        invariant
            ins == constructor.instructions@,
            storage.wf(),
            closed_terms(terms0),
            terms0.contains_key(src@),
            terms0.submap_of(storage.spec_terms()),
            terms0 == old(storage).spec_terms(),
            i <= ins.len(),
            c2_run(ins, terms0, src@) is Some,
            c2_run(ins.take(i as int), terms0, src@) == Some(vals),
            storage.spec_terms().len() + c2_inserts(ins) - c2_inserts(ins.take(i as int)) + 1 < u32::MAX,
            data_stack@.len() == vals.len(),
            forall|j: int| 0 <= j < data_stack@.len() ==> storage.spec_terms().contains_key(#[trigger] data_stack@[j]@),
            forall|j: int| 0 <= j < data_stack@.len() ==> cdenotes(storage.spec_terms(), #[trigger] data_stack@[j]@, vals[j]),
            storage.spec_fixed() == old(storage).spec_fixed(),
            storage.spec_rules() == old(storage).spec_rules(),
        decreases ins.len() - i,
    {
        proof {
            lemma_c2_prefix(ins, terms0, src@, i + 1);
            assert(ins.take(i + 1).drop_last() =~= ins.take(i as int));
            assert(ins.take(i + 1).last() == ins[i as int]);
        }
        let ghost next = c2_step(ins[i as int], terms0, src@, vals)->0;
        match &constructor.instructions[i] {
            Instruction::Symbol(s) => {
                data_stack.push(s.symbol);
                proof {
                    assert(data_stack@ =~= data_stack@);
                    vals = next;
                }
            },
            Instruction::Compound(c) => {
                proof {
                    lemma_expr_grows(c.length, terms0, storage.spec_terms(), src@, Seq::empty());
                }
                let no_vars: Vec<usize> = Vec::new();
                assert(no_vars@ =~= Seq::<usize>::empty());
                let length = interpret_expr(&c.length, no_vars.as_slice(), storage, src);
                let rest = data_stack.split_off(length);
                let first = data_stack;
                let mut data: Vec<StorageKey> = Vec::new();
                let mut j: usize = first.len();
                while j > 0
                    invariant
                        j <= first@.len(),
                        data@ == first@.subrange(j as int, first@.len() as int).reverse(),
                    decreases j,
                {
                    j = j - 1;
                    data.push(first[j]);
                    assert(first@.subrange(j as int, first@.len() as int).reverse() =~= first@.subrange(j + 1, first@.len() as int).reverse().push(first@[j as int]));
                }
                assert(first@.subrange(0, first@.len() as int) == first@);
                let ghost before = storage.spec_terms();
                let ghost dv = data@;
                let ghost items = vals.take(length as int).reverse();
                proof {
                    assert forall|t: int| 0 <= t < dv.len() implies before.contains_key(#[trigger] dv[t]@) by {
                        assert(dv[t] == first@[first@.len() - 1 - t]);
                    }
                }
                let key = storage.insert(Term::Compound(Compound::new(data)));
                data_stack = rest;
                data_stack.push(key);
                proof {
                    let after = storage.spec_terms();
                    assert forall|t: int| 0 <= t < items.len() implies cdenotes(after, #[trigger] dv[t]@, items[t]) by {
                        assert(dv[t] == first@[first@.len() - 1 - t]);
                        assert(items[t] == vals[length - 1 - t]);
                        lemma_cdenotes_grows(before, after, dv[t]@, items[t]);
                    }
                    assert(cdenotes(after, key@, CVal::Built(items)));
                    assert forall|t: int| 0 <= t < data_stack@.len() implies after.contains_key(#[trigger] data_stack@[t]@)
                        && cdenotes(after, data_stack@[t]@, next[t]) by {
                        if t < data_stack@.len() - 1 {
                            assert(data_stack@[t] == rest@[t]);
                            assert(next[t] == vals[length + t]);
                            assert(before.contains_key(rest@[t]@));
                            lemma_cdenotes_grows(before, after, rest@[t]@, vals[length + t]);
                        }
                    }
                    assert forall|x: u64| #[trigger] terms0.contains_key(x) implies after.contains_key(x) && after[x] == terms0[x] by {
                        assert(before.contains_key(x));
                    }
                    vals = next;
                }
            },
            Instruction::ForLoop(_) => {
                assert(false);
            },
            Instruction::Copy(_) => {
                assert(false);
            },
        }
        i = i + 1;
    }
    assert(ins.take(ins.len() as int) =~= ins);
    let r = data_stack.pop().unwrap();
    let ghost mid = storage.spec_terms();
    let result = storage.get(r).unwrap().clone();
    proof {
        assert(children_present(mid, mid[r@]));
    }
    storage.replace(src, result);
    assert(cdenotes(mid, r@, vals[0]));
}

} // verus!
