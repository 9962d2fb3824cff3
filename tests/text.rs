use redis_lite::text::{decimal_bytes, parse_i64, parse_length, parse_u64, parse_unsigned, signed_decimal_bytes, to_ascii_lower};

#[test]
fn decimal_rendering() {
    assert_eq!(decimal_bytes(0), b"0".to_vec());
    assert_eq!(decimal_bytes(1234), b"1234".to_vec());
    assert_eq!(decimal_bytes(u64::MAX), b"18446744073709551615".to_vec());
    assert_eq!(signed_decimal_bytes(-5), b"-5".to_vec());
}

#[test]
fn unsigned_parsing() {
    assert_eq!(parse_unsigned(b"007"), Some(7));
    assert_eq!(parse_unsigned(b"18446744073709551615"), Some(u64::MAX));
    assert_eq!(parse_unsigned(b"18446744073709551616"), None);
    assert_eq!(parse_unsigned(b""), None);
    assert_eq!(parse_unsigned(b"1a"), None);
    assert_eq!(parse_length(b"007"), None);
    assert_eq!(parse_length(b"0"), Some(0));
}

#[test]
fn signed_parsing() {
    assert_eq!(parse_i64(b"-9223372036854775808"), Some(i64::MIN));
    assert_eq!(parse_i64(b"9223372036854775807"), Some(i64::MAX));
    assert_eq!(parse_i64(b"9223372036854775808"), None);
    assert_eq!(parse_i64(b"+12"), Some(12));
    assert_eq!(parse_i64(b"-"), None);
    assert_eq!(parse_i64(b"abc"), None);
}

#[test]
fn lower_case_is_ascii_only() {
    assert_eq!(to_ascii_lower(b"PiNg-\xc3\x89"), b"ping-\xc3\x89".to_vec());
}

#[test]
fn u64_parsing_takes_one_plus() {
    assert_eq!(parse_u64(b"+5"), Some(5));
    assert_eq!(parse_u64(b"5"), Some(5));
    assert_eq!(parse_u64(b"++5"), None);
    assert_eq!(parse_u64(b"+"), None);
    assert_eq!(parse_u64(b"-5"), None);
}
