use arrus::text::{decimal_string, join_strings, parse_unsigned, split_cmdline, str_eq};

#[test]
fn unsigned_numbers_parse_like_std() {
    assert_eq!(parse_unsigned("42", u64::MAX), Some(42));
    assert_eq!(parse_unsigned("+7", 65535), Some(7));
    assert_eq!(parse_unsigned("007", 65535), Some(7));
    assert_eq!(parse_unsigned("65536", 65535), None);
    assert_eq!(parse_unsigned("18446744073709551615", u64::MAX), Some(u64::MAX));
    assert_eq!(parse_unsigned("18446744073709551616", u64::MAX), None);
    assert_eq!(parse_unsigned("", 10), None);
    assert_eq!(parse_unsigned("+", 10), None);
    assert_eq!(parse_unsigned("-1", 10), None);
    assert_eq!(parse_unsigned(" 1", 10), None);
}

#[test]
fn decimal_rendering() {
    assert_eq!(decimal_string(0), "0");
    assert_eq!(decimal_string(1234567890), "1234567890");
    assert_eq!(decimal_string(u128::MAX), u128::MAX.to_string());
}

#[test]
fn command_line_and_joining() {
    let (e, a) = split_cmdline("a\0b\0\0c");
    assert_eq!(e, "a");
    assert_eq!(a, vec!["b".to_string(), "c".to_string()]);
    let joined: String = join_strings(&["x".to_string(), "y".to_string()], &[' ']).into_iter().collect();
    assert_eq!(joined, "x y");
    assert!(str_eq("abc", "abc"));
    assert!(!str_eq("abc", "abd"));
}
