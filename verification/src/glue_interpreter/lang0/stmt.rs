use vstd::prelude::*;

use crate::glue_interpreter::lang0::expr::{
    constant_text, expr_text, index_text, push_constant, push_expr, push_var, var_text, ConstantExpr, Expr, ExprView,
    Index, Var,
};
use crate::glue_interpreter::storage::{decimal, push_decimal, push_key_number, StorageKey};

verus! {

/// The position of a statement in a program.
#[derive(Clone, Copy, Debug, PartialEq, Eq, Hash)]
pub struct Label(pub usize);

impl Label {
    /// How a label is shown: `@` and its position in decimal.
    pub fn text(&self) -> (r: Vec<char>)
        ensures
            r@ == seq!['@'] + decimal(self.0 as nat),
    {
        let mut out: Vec<char> = Vec::new();
        out.push('@');
        push_decimal(&mut out, self.0);
        out
    }
}

/// A statement of the stack language.
#[derive(Debug, PartialEq, Eq)]
pub enum Stmt {
    /// Sets a variable, growing the variables with zeros up to it.
    Assign { lhs: Var, rhs: Expr },
    /// Pushes a key.
    Sym(StorageKey),
    /// Pushes the key a path leads to from the source term.
    Copy(Index),
    /// Replaces the top `length` keys by the key of a new compound of them.
    Build { length: ConstantExpr },
    /// Goes to `jump_to` when `when_var` is less than `le_var`.
    Jump { jump_to: Label, when_var: Var, le_var: ConstantExpr },
    /// Goes to a label.
    UnconditionalJump(Label),
}

/// A statement with its expressions and path by view.
pub enum StmtView {
    Assign { lhs: Var, rhs: ExprView },
    Sym(StorageKey),
    Copy(Seq<ConstantExpr>),
    Build { length: ConstantExpr },
    Jump { jump_to: Label, when_var: Var, le_var: ConstantExpr },
    UnconditionalJump(Label),
}

impl View for Stmt {
    type V = StmtView;

    open spec fn view(&self) -> StmtView {
        match self {
            Stmt::Assign { lhs, rhs } => StmtView::Assign { lhs: *lhs, rhs: rhs@ },
            Stmt::Sym(k) => StmtView::Sym(*k),
            Stmt::Copy(index) => StmtView::Copy(index.spec_elements()),
            Stmt::Build { length } => StmtView::Build { length: *length },
            Stmt::Jump { jump_to, when_var, le_var } => StmtView::Jump {
                jump_to: *jump_to,
                when_var: *when_var,
                le_var: *le_var,
            },
            Stmt::UnconditionalJump(l) => StmtView::UnconditionalJump(*l),
        }
    }
}

/// The views of the statements.
pub open spec fn stmt_views(ss: Seq<Stmt>) -> Seq<StmtView> {
    ss.map_values(|s: Stmt| s@)
}

impl Stmt {
    pub fn assign(var: usize, expr: Expr) -> (r: Self)
        ensures
            r == (Stmt::Assign { lhs: Var(var), rhs: expr }),
    {
        Self::Assign { lhs: Var(var), rhs: expr }
    }

    pub fn sym(key: StorageKey) -> (r: Self)
        ensures
            r == Stmt::Sym(key),
    {
        Self::Sym(key)
    }

    pub fn copy(elements: Vec<ConstantExpr>) -> (r: Self)
        ensures
            r matches Stmt::Copy(index) && index.spec_elements() == elements@,
    {
        Self::Copy(Index::new(elements))
    }

    pub fn build(length: ConstantExpr) -> (r: Self)
        ensures
            r == (Stmt::Build { length }),
    {
        Self::Build { length }
    }

    pub fn jump(destination_instruction: usize, when_var: usize, is_less_than: ConstantExpr) -> (r: Self)
        ensures
            r == (Stmt::Jump {
                jump_to: Label(destination_instruction),
                when_var: Var(when_var),
                le_var: is_less_than,
            }),
    {
        Self::Jump { jump_to: Label(destination_instruction), when_var: Var(when_var), le_var: is_less_than }
    }

    pub fn unconditional_jump(destination_instruction: usize) -> (r: Self)
        ensures
            r == Stmt::UnconditionalJump(Label(destination_instruction)),
    {
        Self::UnconditionalJump(Label(destination_instruction))
    }
}


/// How a label is shown: `@` and its position in decimal.
pub open spec fn label_text(l: Label) -> Seq<char> {
    seq!['@'] + decimal(l.0 as nat)
}

/// How a statement is shown: `v = e` for an assignment, `sym` and the key's
/// number, `copy` and the path, `build` and the length, `jump @n when v < e`
/// for a conditional jump and `jump @n` for an unconditional one.
pub open spec fn stmt_text(s: StmtView) -> Seq<char> {
    match s {
        StmtView::Assign { lhs, rhs } => var_text(lhs) + seq![' ', '=', ' '] + expr_text(rhs),
        StmtView::Sym(k) => seq!['s', 'y', 'm', ' '] + decimal(k@ as nat),
        StmtView::Copy(es) => seq!['c', 'o', 'p', 'y', ' '] + index_text(es),
        StmtView::Build { length } => seq!['b', 'u', 'i', 'l', 'd', ' '] + constant_text(length),
        StmtView::Jump { jump_to, when_var, le_var } => seq!['j', 'u', 'm', 'p', ' '] + label_text(jump_to)
            + seq![' ', 'w', 'h', 'e', 'n', ' '] + var_text(when_var) + seq![' ', '<', ' '] + constant_text(le_var),
        StmtView::UnconditionalJump(l) => seq!['j', 'u', 'm', 'p', ' '] + label_text(l),
    }
}

/// Appends the characters `cs`.
fn push_chars(out: &mut Vec<char>, cs: &[char])
    ensures
        final(out)@ == old(out)@ + cs@,
{
    let mut i: usize = 0;
    while i < cs.len()
        invariant
            i <= cs@.len(),
            out@ == old(out)@ + cs@.take(i as int),
        decreases cs@.len() - i,
    {
        out.push(cs[i]);
        i = i + 1;
        assert(out@ =~= old(out)@ + cs@.take(i as int));
    }
    assert(cs@.take(cs@.len() as int) =~= cs@);
}

/// Appends how the label `l` is shown.
fn push_label(out: &mut Vec<char>, l: Label)
    ensures
        final(out)@ == old(out)@ + label_text(l),
{
    out.push('@');
    push_decimal(out, l.0);
    assert(out@ =~= old(out)@ + label_text(l));
}

impl Stmt {
    /// How the statement is shown, as [`stmt_text`] says.
    pub fn text(&self) -> (r: Vec<char>)
        ensures
            r@ == stmt_text(self@),
    {
        let mut out: Vec<char> = Vec::new();
        match self {
            Stmt::Assign { lhs, rhs } => {
                push_var(&mut out, *lhs);
                push_chars(&mut out, &[' ', '=', ' ']);
                push_expr(&mut out, rhs);
            },
            Stmt::Sym(k) => {
                push_chars(&mut out, &['s', 'y', 'm', ' ']);
                push_key_number(&mut out, *k);
            },
            Stmt::Copy(index) => {
                push_chars(&mut out, &['c', 'o', 'p', 'y', ' ']);
                let es = index.text();
                push_chars(&mut out, es.as_slice());
            },
            Stmt::Build { length } => {
                push_chars(&mut out, &['b', 'u', 'i', 'l', 'd', ' ']);
                push_constant(&mut out, *length);
            },
            Stmt::Jump { jump_to, when_var, le_var } => {
                push_chars(&mut out, &['j', 'u', 'm', 'p', ' ']);
                push_label(&mut out, *jump_to);
                push_chars(&mut out, &[' ', 'w', 'h', 'e', 'n', ' ']);
                push_var(&mut out, *when_var);
                push_chars(&mut out, &[' ', '<', ' ']);
                push_constant(&mut out, *le_var);
            },
            Stmt::UnconditionalJump(l) => {
                push_chars(&mut out, &['j', 'u', 'm', 'p', ' ']);
                push_label(&mut out, *l);
            },
        }
        assert(out@ =~= stmt_text(self@));
        out
    }
}

} // verus!
