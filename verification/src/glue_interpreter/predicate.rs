use vstd::prelude::*;
use std::collections::HashSet;

use crate::glue_interpreter::index::TermIndexN;

verus! {

/// Predicates that terms at given positions must meet.
#[derive(Debug)]
pub struct PredicateSet {
    set: HashSet<IndexedPredicate>,
}

impl PredicateSet {
    pub closed spec fn spec_set(&self) -> Set<IndexedPredicate> {
        self.set@
    }

    /// No predicates.
    pub fn new() -> (r: Self)
        ensures
            r.spec_set() == Set::<IndexedPredicate>::empty(),
    {
        Self { set: HashSet::new() }
    }
}

/// A predicate on the terms the positions lead to.
#[derive(Debug, PartialEq, Eq, Hash)]
pub struct IndexedPredicate {
    pub index: Vec<TermIndexN>,
    pub predicate: Predicate,
}

/// What a term must be.
#[derive(Debug, PartialEq, Eq, Hash)]
pub enum Predicate {
    /// A symbol with this name.
    SymbolEqualTo(String),
    /// A compound of this length.
    LengthEqualTo(usize),
    /// A compound of at least this length.
    LengthGreaterThanOrEqualTo(usize),
}

} // verus!
