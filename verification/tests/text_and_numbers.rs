use daddle::decimal::{append_decimal, decimal_string, decimal_width};
use daddle::text::byte_length;

#[test]
fn decimal_string_writes_numbers_without_leading_zeros() {
    assert_eq!(decimal_string(0), "0");
    assert_eq!(decimal_string(7), "7");
    assert_eq!(decimal_string(10), "10");
    assert_eq!(decimal_string(1500), "1500");
    assert_eq!(decimal_string(1_048_576), "1048576");
    assert_eq!(decimal_string(u64::MAX as u128), "18446744073709551615");
    assert_eq!(
        decimal_string(u128::MAX),
        "340282366920938463463374607431768211455"
    );
}

#[test]
fn append_decimal_keeps_what_was_there() {
    let mut text = String::from("size=");
    append_decimal(&mut text, 2_000_000);
    assert_eq!(text, "size=2000000");
    append_decimal(&mut text, 0);
    assert_eq!(text, "size=20000000");
}

#[test]
fn decimal_width_counts_the_digits() {
    assert_eq!(decimal_width(0), 1);
    assert_eq!(decimal_width(9), 1);
    assert_eq!(decimal_width(10), 2);
    assert_eq!(decimal_width(99), 2);
    assert_eq!(decimal_width(100), 3);
    assert_eq!(decimal_width(u128::MAX), 39);
}

#[test]
fn byte_length_counts_bytes_not_characters() {
    assert_eq!(byte_length(""), 0);
    assert_eq!(byte_length("abc"), 3);
    assert_eq!(byte_length("é"), 2);
    assert_eq!(byte_length("日本"), 6);
}
