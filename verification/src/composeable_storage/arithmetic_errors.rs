use vstd::prelude::*;

verus! {

/// The error of an arithmetic operation whose result does not fit in its type.
#[derive(Clone, Copy, PartialEq, Eq, Structural, Hash, Debug)]
pub struct Overflow;

} // verus!
