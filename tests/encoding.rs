use minichain::encoding::{push_bytes, push_decimal, starts_with};

#[test]
fn decimal_digits() {
    let mut out = Vec::new();
    push_decimal(&mut out, 0);
    assert_eq!(out, b"0".to_vec());
    let mut out = b"x".to_vec();
    push_decimal(&mut out, 1234567);
    assert_eq!(out, b"x1234567".to_vec());
    let mut out = Vec::new();
    push_decimal(&mut out, u64::MAX);
    assert_eq!(out, b"18446744073709551615".to_vec());
}

#[test]
fn bytes_are_appended() {
    let mut out = b"ab".to_vec();
    push_bytes(&mut out, b"cde");
    assert_eq!(out, b"abcde".to_vec());
    push_bytes(&mut out, b"");
    assert_eq!(out, b"abcde".to_vec());
}

#[test]
fn prefix_test() {
    assert!(starts_with("hello", "he"));
    assert!(starts_with("hello", ""));
    assert!(starts_with("hello", "hello"));
    assert!(!starts_with("he", "hello"));
    assert!(!starts_with("hello", "hx"));
}
