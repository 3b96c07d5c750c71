use vstd::prelude::*;

verus! {

/// A `usize` that is not zero.
#[derive(Clone, Copy, PartialEq, Eq, Hash, Debug)]
pub struct NonZeroCount {
    value: usize,
}

impl NonZeroCount {
    #[verifier::type_invariant]
    spec fn inv(self) -> bool {
        self.value > 0
    }

    pub closed spec fn spec_get(self) -> nat {
        self.value as nat
    }

    /// `None` when `value` is zero.
    pub fn new(value: usize) -> (r: Option<NonZeroCount>)
        ensures
            r is Some <==> value > 0,
            r matches Some(n) ==> n.spec_get() == value,
    {
        if value > 0 {
            Some(NonZeroCount { value })
        } else {
            None
        }
    }

    /// The value, which is at least one.
    pub fn get(&self) -> (r: usize)
        ensures
            r == self.spec_get(),
            r > 0,
    {
        proof {
            use_type_invariant(self);
        }
        self.value
    }

    /// The product, or `usize::MAX` when it does not fit in a `usize`.
    pub fn saturating_mul(&self, rhs: &NonZeroCount) -> (r: NonZeroCount)
        ensures
            r.spec_get() == if self.spec_get() * rhs.spec_get() <= usize::MAX {
                self.spec_get() * rhs.spec_get()
            } else {
                usize::MAX as nat
            },
    {
        match self.checked_mul(rhs) {
            Some(n) => n,
            None => NonZeroCount { value: usize::MAX },
        }
    }

    /// The product, if it fits in a `usize`.
    pub fn checked_mul(&self, rhs: &NonZeroCount) -> (r: Option<NonZeroCount>)
        ensures
            r is Some <==> self.spec_get() * rhs.spec_get() <= usize::MAX,
            r matches Some(n) ==> n.spec_get() == self.spec_get() * rhs.spec_get(),
    {
        let a = self.get();
        let b = rhs.get();
        match a.checked_mul(b) {
            Some(v) => {
                assert(v > 0) by (nonlinear_arith)
                    requires
                        v == a * b,
                        a > 0,
                        b > 0,
                ;
                Some(NonZeroCount { value: v })
            },
            None => None,
        }
    }
}

} // verus!
