use vstd::prelude::*;

use crate::glue_interpreter::lang0::expr::Var;

verus! {

/// A variable or a constant.
pub enum ExtendedConstantExpr {
    Var(Var),
    Constant(usize),
}

} // verus!
