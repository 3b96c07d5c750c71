use vstd::prelude::*;

use crate::glue_interpreter::lang0::expr::{ConstantExpr, Var};
use crate::glue_interpreter::lang0::stmt::Label;
use crate::glue_interpreter::storage::StorageKey;

verus! {

/// A path into the source term.
#[derive(Debug, PartialEq, Eq, Hash)]
pub struct Index {
    elements: Vec<IndexElement>,
}

impl Index {
    pub closed spec fn spec_elements(&self) -> Seq<IndexElement> {
        self.elements@
    }

    pub fn new(elements: Vec<IndexElement>) -> (r: Self)
        ensures
            r.spec_elements() == elements@,
    {
        Self { elements }
    }

    pub fn elements(&self) -> (r: &[IndexElement])
        ensures
            r@ == self.spec_elements(),
    {
        self.elements.as_slice()
    }
}

/// A position from the start, back from the end, or in a variable.
#[derive(Clone, Copy, Debug, PartialEq, Eq, Hash)]
pub enum IndexElement {
    ZeroPlus(usize),
    LenMinus(usize),
    Var(usize),
}

/// A statement of the language with loops and builds marked by their ends.
#[derive(Debug, PartialEq, Eq)]
pub enum Stmt {
    ForLoopPrologue { induction_var: Var, start: usize, end_at_len_minus: usize, elements: Vec<ConstantExpr> },
    ForLoopEpilogue { jump_to: Label, when_var: Var, le_var: ConstantExpr },
    BuildPrologue { repetition_var: Option<Var> },
    BuildEpilogue { repetition: ConstantExpr },
    Sym(StorageKey),
    Copy(Index),
}

} // verus!
