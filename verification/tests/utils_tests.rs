//! Tests of the numeric helpers: decimal widths and rounding.

use arith_sheets::utils::{char_len, round_to};

#[test]
fn test_round_to() {
    assert_eq!(round_to(19, 5, 1, 100), 20);
    assert_eq!(round_to(18, 5, 1, 100), 20);
    assert_eq!(round_to(17, 5, 1, 100), 15);
    assert_eq!(round_to(16, 5, 1, 100), 15);
    assert_eq!(round_to(15, 5, 1, 100), 15);
}

#[test]
fn test_round_to_clamps_into_window() {
    // The nearest multiple of 10 to 97 is 100, which lies outside
    // [1, 100); one corrective step down lands on 90.
    assert_eq!(round_to(97, 10, 1, 100), 90);
    // The nearest multiple of 7 to 2 is 0, below the window start; one
    // corrective step up lands on 7.
    assert_eq!(round_to(2, 7, 5, 100), 7);
    // A tie rounds up: 15 is equally near to 10 and 20.
    assert_eq!(round_to(15, 10, 1, 100), 20);
}

#[test]
fn test_char_len() {
    assert_eq!(2, char_len(23));
    assert_eq!(1, char_len(0));
    assert_eq!(1, char_len(1));
    assert_eq!(1, char_len(9));
    assert_eq!(2, char_len(10));
    assert_eq!(2, char_len(99));
    assert_eq!(3, char_len(100));
    assert_eq!(5, char_len(10000));
}

#[test]
fn test_digit_width_examples() {
    assert_eq!(char_len(0), 1);
    assert_eq!(char_len(9), 1);
    assert_eq!(char_len(10), 2);
    assert_eq!(char_len(100), 3);
}
