use vstd::prelude::*;

verus! {

/// A program of the language with repetition marks.
pub struct Ast {}

} // verus!
