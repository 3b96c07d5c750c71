use composeable_glue::composeable_storage::aligned::{AlignedLength, OffsetAlignedLength};
use composeable_glue::composeable_storage::alignment::Alignment;
use composeable_glue::composeable_storage::arithmetic_errors::Overflow;
use composeable_glue::composeable_storage::lower_bounded::LowerBounded;
use composeable_glue::composeable_storage::merge::{TryMergeInto, TryMergeTransform};
use composeable_glue::composeable_storage::units::Bytes;
use composeable_glue::composeable_storage::unused_ram::UnusedRam;
use composeable_glue::composeable_storage::bounds::{AtOrBetween, OffsetAtOrAbove};
use composeable_glue::composeable_storage::nonzero::NonZeroCount;
use composeable_glue::composeable_storage::partition::TryPartition;
use composeable_glue::composeable_storage2::mmap::Mmap;

#[test]
fn aligned_length1() {
    let a = AlignedLength::new(Alignment::new(1024).unwrap(), 64usize);
    assert_eq!(a.try_aligned_length(), Ok(1024));

    let a = AlignedLength::new(Alignment::new(1024).unwrap(), 1025usize);
    assert_eq!(a.try_aligned_length(), Ok(2048));

    let a = AlignedLength::new(Alignment::new(1024).unwrap(), 2048usize);
    assert_eq!(a.try_aligned_length(), Ok(2048));

    let a = AlignedLength::new(Alignment::new(1024).unwrap(), 64u8);
    assert_eq!(a.try_aligned_length(), Err(Overflow));
}

#[test]
fn aligned_merge1() {
    let a1 = AlignedLength::new(Alignment::new(8).unwrap(), 1usize);
    let a2 = AlignedLength::new(Alignment::new(64).unwrap(), 32usize);
    assert_eq!(
        a1.try_merge_into(a2),
        Ok(OffsetAlignedLength::try_new(64, Alignment::new(64).unwrap(), 96).unwrap())
    );

    let a1 = AlignedLength::new(Alignment::new(64).unwrap(), 32usize);
    let a2 = AlignedLength::new(Alignment::new(8).unwrap(), 1usize);
    assert_eq!(
        a1.try_merge_into(a2),
        Ok(OffsetAlignedLength::try_new(64, Alignment::new(64).unwrap(), 65).unwrap())
    );

    let a1 = AlignedLength::new(Alignment::new(128).unwrap(), 64usize);
    let a2 = AlignedLength::new(Alignment::new(128).unwrap(), 64usize);
    assert_eq!(
        a1.try_merge_into(a2),
        Ok(OffsetAlignedLength::try_new(128, Alignment::new(128).unwrap(), 128 + 64).unwrap())
    );
}

#[test]
fn alignment_rejects_non_powers_of_two() {
    assert!(Alignment::new(0).is_none());
    assert!(Alignment::new(3).is_none());
    assert!(Alignment::new(48).is_none());
    assert_eq!(Alignment::new(1).unwrap().as_usize(), 1);
    assert_eq!(Alignment::new(1usize << 63).unwrap().as_usize(), 1usize << 63);
}

#[test]
fn aligned_length_edges() {
    // Alignment 1 leaves every length unchanged.
    let a = AlignedLength::new(Alignment::new(1).unwrap(), 7u8);
    assert_eq!(a.try_aligned_length(), Ok(7));
    // Zero stays zero.
    let a = AlignedLength::new(Alignment::new(256).unwrap(), 0u16);
    assert_eq!(a.try_aligned_length(), Ok(0));
    // 250 rounds up to 256, which no longer fits in a u8.
    let a = AlignedLength::new(Alignment::new(8).unwrap(), 250u8);
    assert_eq!(a.try_aligned_length(), Err(Overflow));
    let a = AlignedLength::new(Alignment::new(8).unwrap(), 248u8);
    assert_eq!(a.try_aligned_length(), Ok(248));
    let a = AlignedLength::new(Alignment::new(16).unwrap(), 17u64);
    assert_eq!(a.try_aligned_length(), Ok(32));
}

#[test]
fn aligned_merge_overflow() {
    let a1 = AlignedLength::new(Alignment::new(16).unwrap(), 200u8);
    let a2 = AlignedLength::new(Alignment::new(1).unwrap(), 50u8);
    // 200 rounds up to 208, and 208 + 50 does not fit in a u8.
    assert_eq!(a1.try_merge_into(a2), Err(Overflow));
    let a2 = AlignedLength::new(Alignment::new(1).unwrap(), 40u8);
    assert_eq!(
        a1.try_merge_into(a2),
        Ok(OffsetAlignedLength::try_new(208, Alignment::new(16).unwrap(), 248).unwrap())
    );
}

#[test]
fn mapping_length_is_saturating_product() {
    let four = NonZeroCount::new(4).unwrap();
    let page = NonZeroCount::new(4096).unwrap();
    assert_eq!(Mmap::mapping_length_with(four, page).get(), 16384);
    let huge = NonZeroCount::new(usize::MAX / 2).unwrap();
    assert_eq!(Mmap::mapping_length_with(huge, page).get(), usize::MAX);
    assert_eq!(four.saturating_mul(&page).get(), 16384);
    let one = NonZeroCount::new(1).unwrap();
    assert!(Mmap.mapping_length(one).get() >= 1);
}

#[test]
fn offset_at_or_above1() {
    let x = OffsetAtOrAbove::try_new(16usize, 8).unwrap();
    let (y, x) = x.try_partition(&()).unwrap().into();
    assert_eq!(y, AtOrBetween::try_new(8, 24).unwrap());
    assert_eq!(x, OffsetAtOrAbove::try_new(0, 24).unwrap());
}

#[test]
fn zero_rounds_to_zero_at_any_alignment() {
    // An alignment beyond every u8 value still rounds a zero length to zero.
    let a = AlignedLength::new(Alignment::new(1024).unwrap(), 0u8);
    assert_eq!(a.try_aligned_length(), Ok(0));
    let a = AlignedLength::new(Alignment::new(1024).unwrap(), 1u8);
    assert_eq!(a.try_aligned_length(), Err(Overflow));
}

#[test]
fn lower_bounded_needs_a_nonzero_size() {
    let one = Alignment::new(1).unwrap();
    assert!(LowerBounded::try_new_global(one, Bytes { count: 0usize }, ()).is_none());
    let lb = LowerBounded::try_new_global(Alignment::new(64).unwrap(), Bytes { count: 128usize }, ()).unwrap();
    assert_eq!(lb.length_ref().count, 128);
    assert!(().try_merge_transform(AlignedLength::new(one, Bytes { count: 0usize })).is_err());
    assert!(().try_merge_transform(AlignedLength::new(one, Bytes { count: 1usize })).is_ok());
}

#[test]
fn unused_ram_keeps_its_size_and_alignment() {
    let size = NonZeroCount::new(16).unwrap();
    let u = UnusedRam::try_new((), size, Alignment::new(64).unwrap()).unwrap();
    assert_eq!(u.size().get(), 16);
    assert_eq!(u.alignment().as_usize(), 64);
    let huge = NonZeroCount::new(usize::MAX).unwrap();
    assert!(UnusedRam::try_new((), huge, Alignment::new(64).unwrap()).is_none());
}
