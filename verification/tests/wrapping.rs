use naia::wrapping_number::{sequence_greater_than, sequence_less_than, wrapping_diff};

#[test]
fn wrapping_diff_of_a_number_and_itself_is_zero() {
    assert_eq!(wrapping_diff(0, 0), 0);
    assert_eq!(wrapping_diff(65535, 65535), 0);
}

#[test]
fn wrapping_diff_crosses_the_end_of_the_range() {
    assert_eq!(wrapping_diff(65535, 0), 1);
    assert_eq!(wrapping_diff(0, 65535), -1);
    assert_eq!(wrapping_diff(10, 20), 10);
    assert_eq!(wrapping_diff(20, 10), -10);
    assert_eq!(wrapping_diff(0, 32767), 32767);
    assert_eq!(wrapping_diff(0, 32768), -32768);
    assert_eq!(wrapping_diff(32768, 0), -32768);
}

#[test]
fn later_numbers_are_greater_across_the_wrap() {
    assert!(sequence_greater_than(1, 0));
    assert!(sequence_greater_than(0, 65535));
    assert!(sequence_less_than(65535, 0));
    assert!(!sequence_greater_than(5, 5));
    assert!(!sequence_less_than(5, 5));
}
