use vstd::prelude::*;
use vstd::arithmetic::power2::{pow2, lemma2_to64, lemma_pow2_strictly_increases};
use vstd::bits::{lemma_usize_shl_is_mul, lemma_usize_pow2_no_overflow};

verus! {

/// `n` is a power of two.
pub open spec fn is_power_of_two(n: nat) -> bool {
    exists|k: nat| pow2(k) == n
}

/// No power of two at or beyond the width of `usize` fits in a `usize`.
pub proof fn lemma_pow2_exceeds_usize(k: nat)
    requires
        k >= usize::BITS,
    ensures
        pow2(k) > usize::MAX,
{
    lemma2_to64();
    if k > usize::BITS {
        lemma_pow2_strictly_increases(usize::BITS as nat, k);
    }
}

/// A power of two, used as the alignment of lengths and of memory.
#[derive(Clone, Copy, PartialEq, Eq, PartialOrd, Ord, Hash, Debug)]
pub struct Alignment {
    value: usize,
}

impl Alignment {
    #[verifier::type_invariant]
    spec fn inv(self) -> bool {
        is_power_of_two(self.value as nat)
    }

    /// The number of bytes (or units) this alignment stands for.
    pub closed spec fn spec_value(self) -> nat {
        self.value as nat
    }

    /// Returns the alignment `value`, or `None` when `value` is not a power of two.
    pub fn new(value: usize) -> (r: Option<Alignment>)
        ensures
            r is Some <==> is_power_of_two(value as nat),
            r matches Some(a) ==> a.spec_value() == value,
    {
        let mut k: usize = 0;
        while k < usize::BITS as usize
            invariant
                k <= usize::BITS,
                forall|j: nat| j < k ==> pow2(j) != value,
            decreases usize::BITS - k,
        {
            proof {
                lemma_usize_pow2_no_overflow(k as nat);
                lemma_usize_shl_is_mul(1, k);
            }
            if (1usize << k) == value {
                return Some(Alignment { value });
            }
            k = k + 1;
        }
        proof {
            if is_power_of_two(value as nat) {
                let j = choose|j: nat| pow2(j) == value as nat;
                if j >= usize::BITS {
                    lemma_pow2_exceeds_usize(j);
                }
            }
        }
        None
    }

    /// The alignment as a `usize`.
    pub fn as_usize(&self) -> (r: usize)
        ensures
            r == self.spec_value(),
            is_power_of_two(r as nat),
            r >= 1,
    {
        proof {
            use_type_invariant(self);
            let k = choose|k: nat| pow2(k) == self.value as nat;
            vstd::arithmetic::power2::lemma_pow2_pos(k);
        }
        self.value
    }

    /// The larger of two alignments.
    pub fn max(self, other: Alignment) -> (r: Alignment)
        ensures
            r.spec_value() == if self.spec_value() >= other.spec_value() {
                self.spec_value()
            } else {
                other.spec_value()
            },
    {
        if self.value >= other.value {
            self
        } else {
            other
        }
    }
}

} // verus!
