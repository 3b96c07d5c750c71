use vstd::prelude::*;
use vstd::arithmetic::power2::{pow2, lemma2_to64, lemma_pow2_strictly_increases};
use vstd::bits::{
    low_bits_mask, lemma_u8_low_bits_mask_is_mod, lemma_u16_low_bits_mask_is_mod,
    lemma_u32_low_bits_mask_is_mod, lemma_u64_low_bits_mask_is_mod,
};

use crate::composeable_storage::alignment::is_power_of_two;

verus! {

/// An unsigned count: a number of bytes, pages or other units.
pub trait Count: Sized + Copy {
    /// The number this value stands for.
    spec fn spec_count(&self) -> nat;

    /// The largest number a value of this type can stand for.
    spec fn spec_max() -> nat;

    /// Every value lies within the type's range, and that range ends one
    /// below a power of two.
    proof fn lemma_count_bounded(x: &Self)
        ensures
            x.spec_count() <= Self::spec_max(),
            is_power_of_two(Self::spec_max() + 1),
    ;

    /// The value standing for `v`, if the type can hold it.
    fn try_from_usize(v: usize) -> (r: Option<Self>)
        ensures
            r is Some <==> v <= Self::spec_max(),
            r matches Some(x) ==> x.spec_count() == v,
    ;

    /// The sum, if the type can hold it.
    fn checked_add_count(&self, rhs: &Self) -> (r: Option<Self>)
        ensures
            r is Some <==> self.spec_count() + rhs.spec_count() <= Self::spec_max(),
            r matches Some(x) ==> x.spec_count() == self.spec_count() + rhs.spec_count(),
    ;

    /// `self & !mask`: clears the bits of a mask one below a power of two.
    fn clear_low_bits(&self, mask: &Self) -> (r: Self)
        requires
            is_power_of_two(mask.spec_count() + 1),
        ensures
            r.spec_count() == self.spec_count() - self.spec_count() % (mask.spec_count() + 1),
    ;

    /// `self <= rhs`.
    fn le_count(&self, rhs: &Self) -> (r: bool)
        ensures
            r == (self.spec_count() <= rhs.spec_count()),
    ;

    /// The difference, if it is not negative.
    fn checked_sub_count(&self, rhs: &Self) -> (r: Option<Self>)
        ensures
            r is Some <==> rhs.spec_count() <= self.spec_count(),
            r matches Some(x) ==> x.spec_count() == self.spec_count() - rhs.spec_count(),
    ;

    /// Zero.
    fn zero() -> (r: Self)
        ensures
            r.spec_count() == 0,
    ;
}

proof fn lemma_u8_clear(x: u8, m: u8)
    requires
        is_power_of_two(m as nat + 1),
    ensures
        (x & !m) as nat == x as nat - (x as nat) % (m as nat + 1),
{
    let k = choose|k: nat| pow2(k) == m as nat + 1;
    lemma2_to64();
    assert((x & !m) + (x & m) == x) by (bit_vector);
    if k >= 8 {
        if k > 8 {
            lemma_pow2_strictly_increases(8, k);
        }
        assert(m == 0xff);
        assert(x & m == x) by (bit_vector)
            requires
                m == 0xffu8,
        ;
        assert((x as nat) % (m as nat + 1) == x);
    } else {
        lemma_u8_low_bits_mask_is_mod(x, k);
        vstd::bits::lemma_u8_pow2_no_overflow(k);
        assert(low_bits_mask(k) == m);
        assert(x & m == x % (m + 1) as u8);
        assert((x & m) as nat == (x as nat) % (m as nat + 1));
    }
}

proof fn lemma_u16_clear(x: u16, m: u16)
    requires
        is_power_of_two(m as nat + 1),
    ensures
        (x & !m) as nat == x as nat - (x as nat) % (m as nat + 1),
{
    let k = choose|k: nat| pow2(k) == m as nat + 1;
    lemma2_to64();
    assert((x & !m) + (x & m) == x) by (bit_vector);
    if k >= 16 {
        if k > 16 {
            lemma_pow2_strictly_increases(16, k);
        }
        assert(m == 0xffff);
        assert(x & m == x) by (bit_vector)
            requires
                m == 0xffffu16,
        ;
        assert((x as nat) % (m as nat + 1) == x);
    } else {
        lemma_u16_low_bits_mask_is_mod(x, k);
        vstd::bits::lemma_u16_pow2_no_overflow(k);
        assert(low_bits_mask(k) == m);
        assert(x & m == x % (m + 1) as u16);
        assert((x & m) as nat == (x as nat) % (m as nat + 1));
    }
}

proof fn lemma_u32_clear(x: u32, m: u32)
    requires
        is_power_of_two(m as nat + 1),
    ensures
        (x & !m) as nat == x as nat - (x as nat) % (m as nat + 1),
{
    let k = choose|k: nat| pow2(k) == m as nat + 1;
    lemma2_to64();
    assert((x & !m) + (x & m) == x) by (bit_vector);
    if k >= 32 {
        if k > 32 {
            lemma_pow2_strictly_increases(32, k);
        }
        assert(m == 0xffff_ffff);
        assert(x & m == x) by (bit_vector)
            requires
                m == 0xffff_ffffu32,
        ;
        assert((x as nat) % (m as nat + 1) == x);
    } else {
        lemma_u32_low_bits_mask_is_mod(x, k);
        vstd::bits::lemma_u32_pow2_no_overflow(k);
        assert(low_bits_mask(k) == m);
        assert(x & m == x % (m + 1) as u32);
        assert((x & m) as nat == (x as nat) % (m as nat + 1));
    }
}

proof fn lemma_u64_clear(x: u64, m: u64)
    requires
        is_power_of_two(m as nat + 1),
    ensures
        (x & !m) as nat == x as nat - (x as nat) % (m as nat + 1),
{
    let k = choose|k: nat| pow2(k) == m as nat + 1;
    lemma2_to64();
    assert((x & !m) + (x & m) == x) by (bit_vector);
    if k >= 64 {
        if k > 64 {
            lemma_pow2_strictly_increases(64, k);
        }
        assert(m == 0xffff_ffff_ffff_ffff);
        assert(x & m == x) by (bit_vector)
            requires
                m == 0xffff_ffff_ffff_ffffu64,
        ;
        assert((x as nat) % (m as nat + 1) == x);
    } else {
        lemma_u64_low_bits_mask_is_mod(x, k);
        vstd::bits::lemma_u64_pow2_no_overflow(k);
        assert(low_bits_mask(k) == m);
        assert(x & m == x % (m + 1) as u64);
        assert((x & m) as nat == (x as nat) % (m as nat + 1));
    }
}

impl Count for u8 {
    open spec fn spec_count(&self) -> nat {
        *self as nat
    }

    open spec fn spec_max() -> nat {
        u8::MAX as nat
    }

    proof fn lemma_count_bounded(x: &Self) {
        lemma2_to64();
    }

    fn try_from_usize(v: usize) -> (r: Option<Self>) {
        if v <= 0xff {
            Some(v as u8)
        } else {
            None
        }
    }

    fn checked_add_count(&self, rhs: &Self) -> (r: Option<Self>) {
        (*self).checked_add(*rhs)
    }

    fn clear_low_bits(&self, mask: &Self) -> (r: Self) {
        proof {
            lemma_u8_clear(*self, *mask);
        }
        *self & !*mask
    }

    fn le_count(&self, rhs: &Self) -> (r: bool) {
        *self <= *rhs
    }

    fn checked_sub_count(&self, rhs: &Self) -> (r: Option<Self>) {
        (*self).checked_sub(*rhs)
    }

    fn zero() -> (r: Self) {
        0
    }
}

impl Count for u16 {
    open spec fn spec_count(&self) -> nat {
        *self as nat
    }

    open spec fn spec_max() -> nat {
        u16::MAX as nat
    }

    proof fn lemma_count_bounded(x: &Self) {
        lemma2_to64();
    }

    fn try_from_usize(v: usize) -> (r: Option<Self>) {
        if v <= 0xffff {
            Some(v as u16)
        } else {
            None
        }
    }

    fn checked_add_count(&self, rhs: &Self) -> (r: Option<Self>) {
        (*self).checked_add(*rhs)
    }

    fn clear_low_bits(&self, mask: &Self) -> (r: Self) {
        proof {
            lemma_u16_clear(*self, *mask);
        }
        *self & !*mask
    }

    fn le_count(&self, rhs: &Self) -> (r: bool) {
        *self <= *rhs
    }

    fn checked_sub_count(&self, rhs: &Self) -> (r: Option<Self>) {
        (*self).checked_sub(*rhs)
    }

    fn zero() -> (r: Self) {
        0
    }
}

impl Count for u32 {
    open spec fn spec_count(&self) -> nat {
        *self as nat
    }

    open spec fn spec_max() -> nat {
        u32::MAX as nat
    }

    proof fn lemma_count_bounded(x: &Self) {
        lemma2_to64();
    }

    fn try_from_usize(v: usize) -> (r: Option<Self>) {
        if v <= 0xffff_ffff {
            Some(v as u32)
        } else {
            None
        }
    }

    fn checked_add_count(&self, rhs: &Self) -> (r: Option<Self>) {
        (*self).checked_add(*rhs)
    }

    fn clear_low_bits(&self, mask: &Self) -> (r: Self) {
        proof {
            lemma_u32_clear(*self, *mask);
        }
        *self & !*mask
    }

    fn le_count(&self, rhs: &Self) -> (r: bool) {
        *self <= *rhs
    }

    fn checked_sub_count(&self, rhs: &Self) -> (r: Option<Self>) {
        (*self).checked_sub(*rhs)
    }

    fn zero() -> (r: Self) {
        0
    }
}

impl Count for u64 {
    open spec fn spec_count(&self) -> nat {
        *self as nat
    }

    open spec fn spec_max() -> nat {
        u64::MAX as nat
    }

    proof fn lemma_count_bounded(x: &Self) {
        lemma2_to64();
    }

    fn try_from_usize(v: usize) -> (r: Option<Self>) {
        Some(v as u64)
    }

    fn checked_add_count(&self, rhs: &Self) -> (r: Option<Self>) {
        (*self).checked_add(*rhs)
    }

    fn clear_low_bits(&self, mask: &Self) -> (r: Self) {
        proof {
            lemma_u64_clear(*self, *mask);
        }
        *self & !*mask
    }

    fn le_count(&self, rhs: &Self) -> (r: bool) {
        *self <= *rhs
    }

    fn checked_sub_count(&self, rhs: &Self) -> (r: Option<Self>) {
        (*self).checked_sub(*rhs)
    }

    fn zero() -> (r: Self) {
        0
    }
}

impl Count for usize {
    open spec fn spec_count(&self) -> nat {
        *self as nat
    }

    open spec fn spec_max() -> nat {
        usize::MAX as nat
    }

    proof fn lemma_count_bounded(x: &Self) {
        lemma2_to64();
    }

    fn try_from_usize(v: usize) -> (r: Option<Self>) {
        Some(v)
    }

    fn checked_add_count(&self, rhs: &Self) -> (r: Option<Self>) {
        (*self).checked_add(*rhs)
    }

    fn clear_low_bits(&self, mask: &Self) -> (r: Self) {
        let x = *self as u64;
        let m = *mask as u64;
        proof {
            lemma_u64_clear(x, m);
        }
        (x & !m) as usize
    }

    fn le_count(&self, rhs: &Self) -> (r: bool) {
        *self <= *rhs
    }

    fn checked_sub_count(&self, rhs: &Self) -> (r: Option<Self>) {
        (*self).checked_sub(*rhs)
    }

    fn zero() -> (r: Self) {
        0
    }
}


} // verus!
