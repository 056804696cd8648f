use rendy::memory::error::MappingError;
use rendy::memory::mapping::{mapped_fitting_range, mapped_slice_len, mapped_sub_range};
use rendy::memory::properties::Properties;
use rendy::memory::util::{align_range, align_size, aligned, fits_u32, fits_usize, is_sub_range, relative_to_sub_range};

#[test]
fn aligned_rounds_up_to_power_of_two() {
    assert_eq!(aligned(0, 16), 0);
    assert_eq!(aligned(1, 16), 16);
    assert_eq!(aligned(16, 16), 16);
    assert_eq!(aligned(17, 16), 32);
    assert_eq!(aligned(100, 1), 100);
}

#[test]
fn align_range_widens_to_multiples() {
    assert_eq!(align_range(5..30, 8), 0..32);
    assert_eq!(align_range(16..32, 16), 16..32);
    assert_eq!(align_range(100..130, 64), 64..192);
}

#[test]
fn align_size_rounds_up() {
    assert_eq!(align_size(1, 256), 256);
    assert_eq!(align_size(256, 256), 256);
    assert_eq!(align_size(257, 256), 512);
}

#[test]
fn fits_checks_limits() {
    assert!(fits_usize(0));
    assert!(fits_u32(u32::MAX as usize));
    assert!(!fits_u32(u32::MAX as usize + 1));
}

#[test]
fn relative_sub_range_shifts_and_bounds() {
    assert_eq!(relative_to_sub_range(100..200, 10..20), Some(110..120));
    assert_eq!(relative_to_sub_range(100..200, 0..100), Some(100..200));
    assert_eq!(relative_to_sub_range(100..200, 50..101), None);
}

#[test]
fn sub_range_membership() {
    assert!(is_sub_range(0..10, 2..5));
    assert!(is_sub_range(0..10, 0..10));
    assert!(!is_sub_range(5..10, 4..6));
    assert!(!is_sub_range(5..10, 6..11));
}

#[test]
fn fitting_range_gives_address() {
    assert_eq!(mapped_fitting_range(1000, 100..200, 150..160), Some(1050));
    assert_eq!(mapped_fitting_range(1000, 100..200, 50..160), None);
    assert_eq!(mapped_fitting_range(1000, 100..200, 150..201), None);
}

#[test]
fn sub_range_is_relative_to_range_start() {
    assert_eq!(mapped_sub_range(1000, 100..200, 10..20), Some((1010, 110..120)));
    assert_eq!(mapped_sub_range(1000, 100..200, 10..200), None);
    assert_eq!(mapped_sub_range(1000, 100..u64::MAX, 0..u64::MAX), None);
}

#[test]
fn properties_flags_and_bits() {
    let p = Properties::device_local_only().union(Properties::cpu_visible_only());
    assert!(p.contains(Properties::device_local_only()));
    assert!(!p.contains(Properties::coherent_only()));
    assert_eq!(p.bits(), 0x3);
    assert_eq!(Properties::from_bits_truncate(0x1f), Properties::all());
    assert_eq!(Properties::from_bits_truncate(0x40), Properties::empty());
    assert_eq!(p.intersection(Properties::cpu_visible_only()), Properties::cpu_visible_only());
}

#[test]
fn slice_length_and_alignment() {
    assert_eq!(mapped_slice_len(0x1000, 0..64, 4, 4), Ok(16));
    assert_eq!(mapped_slice_len(0x1002, 0..64, 4, 4), Err(MappingError::Unaligned { align: 4, offset: 0x1002 }));
    assert_eq!(mapped_slice_len(0x1003, 8..16, 1, 1), Ok(8));
}
