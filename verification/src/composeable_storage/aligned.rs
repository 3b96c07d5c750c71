use vstd::prelude::*;
use vstd::arithmetic::div_mod::lemma_fundamental_div_mod;
use vstd::arithmetic::power2::{pow2, lemma_pow2_adds, lemma_pow2_pos, lemma_pow2_strictly_increases};

use crate::composeable_storage::alignment::{is_power_of_two, Alignment};
use crate::composeable_storage::arithmetic_errors::Overflow;
use crate::composeable_storage::merge::TryMergeInto;
use crate::composeable_storage::count::Count;

verus! {

/// The smallest multiple of `align` that is at least `len`.
pub open spec fn round_up(len: nat, align: nat) -> nat
    recommends
        align > 0,
{
    (((len + align - 1) as nat) / align) * align
}

/// `x` with its remainder modulo `align` taken off.
proof fn lemma_sub_mod_is_round_down(x: nat, align: nat)
    requires
        align > 0,
    ensures
        x - x % align == (x / align) * align,
        x % align <= x,
{
    lemma_fundamental_div_mod(x as int, align as int);
    assert((x / align) * align == align * (x / align)) by (nonlinear_arith);
}

/// What rounding up to a multiple of an alignment gives: a multiple of the
/// alignment, no less than the length and less than one alignment above it.
pub proof fn lemma_round_up(len: nat, align: nat)
    requires
        align > 0,
    ensures
        round_up(len, align) % align == 0,
        len <= round_up(len, align),
        round_up(len, align) < len + align,
{
    let x = (len + align - 1) as nat;
    lemma_fundamental_div_mod(x as int, align as int);
    assert((x / align) * align == align * (x / align)) by (nonlinear_arith);
    vstd::arithmetic::div_mod::lemma_mod_multiples_basic((x / align) as int, align as int);
}

/// A count that a length aligned to an [`Alignment`] can be made of.
pub trait AlignedLengthType: Count {
}

impl<T: Count> AlignedLengthType for T {
}

/// A length together with the alignment it is to be rounded up to.
#[derive(Clone, Copy, PartialEq, Eq, Hash, Debug)]
pub struct AlignedLength<T: AlignedLengthType> {
    alignment: Alignment,
    length: T,
}

/// Rounding `len` up to a multiple of `align` gives a value `T` can hold.
pub open spec fn round_up_fits<T: AlignedLengthType>(len: nat, align: nat) -> bool {
    round_up(len, align) <= T::spec_max()
}

/// Of two powers of two, the larger is a multiple of the smaller.
proof fn lemma_pow2_divides(a: nat, b: nat)
    requires
        is_power_of_two(a),
        is_power_of_two(b),
        a <= b,
    ensures
        b % a == 0,
{
    let i = choose|i: nat| pow2(i) == a;
    let j = choose|j: nat| pow2(j) == b;
    if j < i {
        lemma_pow2_strictly_increases(j, i);
    }
    lemma_pow2_adds(i, (j - i) as nat);
    lemma_pow2_pos(i);
    vstd::arithmetic::div_mod::lemma_mod_multiples_basic(pow2((j - i) as nat) as int, a as int);
    assert(pow2((j - i) as nat) * a == a * pow2((j - i) as nat)) by (nonlinear_arith);
}

/// Where the alignment fits below the type's end `m + 1`, a power of two,
/// the rounded length fits exactly when `len + align - 1` does.
proof fn lemma_round_up_fits_sum(len: nat, align: nat, m: nat)
    requires
        is_power_of_two(align),
        is_power_of_two(m + 1),
        align >= 1,
        align - 1 <= m,
    ensures
        (round_up(len, align) <= m) == (len + align - 1 <= m),
{
    lemma_round_up(len, align);
    if round_up(len, align) <= m {
        lemma_pow2_divides(align, m + 1);
        let r = round_up(len, align);
        let q = r / align;
        let p = (m + 1) / align;
        lemma_fundamental_div_mod(r as int, align as int);
        lemma_fundamental_div_mod((m + 1) as int, align as int);
        assert(r == align * q);
        assert(m + 1 == align * p);
        assert(q < p) by (nonlinear_arith)
            requires
                r == align * q,
                m + 1 == align * p,
                r < m + 1,
                align >= 1,
        ;
        assert(r + align <= m + 1) by (nonlinear_arith)
            requires
                r == align * q,
                m + 1 == align * p,
                q < p,
                align >= 1,
        ;
    }
}

/// Where the alignment exceeds every value of the type, only a zero length
/// rounds up to a value it can hold.
proof fn lemma_round_up_huge(len: nat, align: nat, m: nat)
    requires
        align >= 1,
        align - 1 > m,
    ensures
        (round_up(len, align) <= m) == (len == 0),
        len == 0 ==> round_up(len, align) == 0,
{
    lemma_round_up(len, align);
    if len == 0 {
        let x = (0 + align - 1) as nat;
        vstd::arithmetic::div_mod::lemma_basic_div(x as int, align as int);
        assert(x / align == 0);
        assert((x / align) * align == 0);
        assert(round_up(0, align) == 0);
    } else {
        let r = round_up(len, align);
        if r < align {
            vstd::arithmetic::div_mod::lemma_small_mod(r, align);
        }
    }
}

impl<T: AlignedLengthType> AlignedLength<T> {
    pub closed spec fn spec_alignment(self) -> Alignment {
        self.alignment
    }

    pub closed spec fn spec_length(self) -> T {
        self.length
    }

    pub fn new(alignment: Alignment, length: T) -> (r: Self)
        ensures
            r.spec_alignment() == alignment,
            r.spec_length() == length,
    {
        Self { alignment, length }
    }

    pub fn alignment(&self) -> (r: &Alignment)
        ensures
            *r == self.spec_alignment(),
    {
        &self.alignment
    }

    pub fn length(&self) -> (r: &T)
        ensures
            *r == self.spec_length(),
    {
        &self.length
    }

    /// Returns the length rounded up to the nearest multiple of the
    /// alignment, or `Overflow` when that does not fit in `T`.
    pub fn try_aligned_length(&self) -> (r: Result<T, Overflow>)
        ensures
            ({
                let len = self.spec_length().spec_count();
                let align = self.spec_alignment().spec_value();
                match r {
                    Ok(v) => round_up_fits::<T>(len, align) && v.spec_count() == round_up(len, align),
                    Err(_) => !round_up_fits::<T>(len, align),
                }
            }),
    {
        let align = self.alignment.as_usize();
        let mask = align - 1;
        proof {
            T::lemma_count_bounded(&self.length);
        }
        match T::try_from_usize(mask) {
            None => {
                proof {
                    lemma_round_up_huge(self.length.spec_count(), align as nat, T::spec_max());
                }
                let zero = T::zero();
                if self.length.le_count(&zero) {
                    assert(round_up_fits::<T>(self.length.spec_count(), align as nat));
                    assert(zero.spec_count() == round_up(self.length.spec_count(), align as nat));
                    Ok(zero)
                } else {
                    assert(!round_up_fits::<T>(self.length.spec_count(), align as nat));
                    Err(Overflow)
                }
            },
            Some(a) => {
                proof {
                    lemma_round_up_fits_sum(self.length.spec_count(), align as nat, T::spec_max());
                }
                match self.length.checked_add_count(&a) {
                    None => {
                        assert(!round_up_fits::<T>(self.length.spec_count(), align as nat));
                        Err(Overflow)
                    },
                    Some(l) => {
                        let r = l.clear_low_bits(&a);
                        proof {
                            lemma_sub_mod_is_round_down(l.spec_count(), align as nat);
                        }
                        assert(r.spec_count() == round_up(self.length.spec_count(), align as nat));
                        assert(round_up_fits::<T>(self.length.spec_count(), align as nat));
                        Ok(r)
                    },
                }
            },
        }
    }
}

/// A length, its alignment and an offset no greater than the length.
#[derive(Clone, Copy, PartialEq, Eq, Hash, Debug)]
pub struct OffsetAlignedLength<T: AlignedLengthType> {
    offset: T,
    alignment: Alignment,
    length: T,
}

impl<T: AlignedLengthType> OffsetAlignedLength<T> {
    /// The offset lies within the length.
    pub closed spec fn wf(self) -> bool {
        self.offset.spec_count() <= self.length.spec_count()
    }

    pub closed spec fn spec_offset(self) -> T {
        self.offset
    }

    pub closed spec fn spec_alignment(self) -> Alignment {
        self.alignment
    }

    pub closed spec fn spec_length(self) -> T {
        self.length
    }

    /// Returns `None` when `offset` exceeds `length`.
    pub fn try_new(offset: T, alignment: Alignment, length: T) -> (r: Option<Self>)
        ensures
            r is Some <==> offset.spec_count() <= length.spec_count(),
            r matches Some(x) ==> x.wf() && x.spec_offset() == offset && x.spec_alignment()
                == alignment && x.spec_length() == length,
    {
        if offset.le_count(&length) {
            Some(Self { offset, alignment, length })
        } else {
            None
        }
    }

    pub fn offset(&self) -> (r: &T)
        ensures
            *r == self.spec_offset(),
    {
        &self.offset
    }

    pub fn alignment(&self) -> (r: &Alignment)
        ensures
            *r == self.spec_alignment(),
    {
        &self.alignment
    }

    pub fn length(&self) -> (r: &T)
        ensures
            *r == self.spec_length(),
    {
        &self.length
    }
}

/// The larger of two alignments' values.
pub open spec fn max_alignment(a: Alignment, b: Alignment) -> nat {
    if a.spec_value() >= b.spec_value() {
        a.spec_value()
    } else {
        b.spec_value()
    }
}

/// Appending `data` behind `first` fits in the count type: `data` starts at
/// `first`'s length rounded up to the larger of the two alignments.
pub open spec fn merge_ok<T: AlignedLengthType>(first: AlignedLength<T>, data: AlignedLength<T>) -> bool {
    let align = max_alignment(first.spec_alignment(), data.spec_alignment());
    let len = first.spec_length().spec_count();
    &&& round_up_fits::<T>(len, align)
    &&& round_up(len, align) + data.spec_length().spec_count() <= T::spec_max()
}

impl<T: AlignedLengthType> TryMergeInto<AlignedLength<T>, OffsetAlignedLength<T>> for AlignedLength<T> {
    type TryMergeIntoError = Overflow;

    /// Places `data` behind `self`: the result's alignment is the larger
    /// one, its offset `self`'s length rounded up to it, and its length
    /// that offset plus `data`'s length. This is `std::alloc::Layout::extend`
    /// except that the offset is rounded up to the larger alignment, not to
    /// `data`'s alone.
    fn try_merge_into(self, data: AlignedLength<T>) -> (r: Result<OffsetAlignedLength<T>, Overflow>)
        ensures
            ({
                let align = max_alignment(self.spec_alignment(), data.spec_alignment());
                let offset = round_up(self.spec_length().spec_count(), align);
                match r {
                    Ok(x) => merge_ok(self, data) && x.wf() && x.spec_alignment().spec_value()
                        == align && x.spec_offset().spec_count() == offset
                        && x.spec_length().spec_count() == offset + data.spec_length().spec_count(),
                    Err(_) => !merge_ok(self, data),
                }
            }),
    {
        let alignment = self.alignment.max(data.alignment);
        let offset = match AlignedLength::new(alignment, self.length).try_aligned_length() {
            Ok(o) => o,
            Err(e) => {
                return Err(e);
            },
        };
        let length = match offset.checked_add_count(&data.length) {
            Some(l) => l,
            None => {
                return Err(Overflow);
            },
        };
        Ok(OffsetAlignedLength { offset, alignment, length })
    }
}

} // verus!
