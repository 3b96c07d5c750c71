use vstd::prelude::*;

verus! {

/// Turns a value into a prefix, a middle and a suffix, or fails.
pub trait TryAffix<P, M, S, E> {
    fn affix(self) -> Result<Affixed<P, M, S>, E>;
}

/// A prefix, a middle and a suffix.
pub struct Affixed<P, M, S> {
    prefix: P,
    middle: M,
    suffix: S,
}

impl<P, M, S> Affixed<P, M, S> {
    pub closed spec fn spec_prefix(self) -> P {
        self.prefix
    }

    pub closed spec fn spec_middle(self) -> M {
        self.middle
    }

    pub closed spec fn spec_suffix(self) -> S {
        self.suffix
    }

    pub fn new(prefix: P, middle: M, suffix: S) -> (r: Self)
        ensures
            r.spec_prefix() == prefix,
            r.spec_middle() == middle,
            r.spec_suffix() == suffix,
    {
        Self { prefix, middle, suffix }
    }

    pub fn prefix(&self) -> (r: &P)
        ensures
            *r == self.spec_prefix(),
    {
        &self.prefix
    }

    pub fn middle(&self) -> (r: &M)
        ensures
            *r == self.spec_middle(),
    {
        &self.middle
    }

    pub fn suffix(&self) -> (r: &S)
        ensures
            *r == self.spec_suffix(),
    {
        &self.suffix
    }
}

/// The layouts of a prefix, a middle and a suffix.
pub type AffixedLayouts = Affixed<std::alloc::Layout, std::alloc::Layout, std::alloc::Layout>;

/// A slice together with how it is split into a prefix, a middle and a suffix.
pub struct Affixer<Slice, P, M, S> {
    slice: Slice,
    affixed: Affixed<P, M, S>,
}

} // verus!
