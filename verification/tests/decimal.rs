use http_server::decimal::{read_decimal, to_decimal, Reading};

#[test]
fn decimal_of_small_numbers() {
    assert_eq!(to_decimal(0), b"0".to_vec());
    assert_eq!(to_decimal(1), b"1".to_vec());
    assert_eq!(to_decimal(9), b"9".to_vec());
    assert_eq!(to_decimal(10), b"10".to_vec());
    assert_eq!(to_decimal(11), b"11".to_vec());
    assert_eq!(to_decimal(100), b"100".to_vec());
    assert_eq!(to_decimal(4221), b"4221".to_vec());
    assert_eq!(to_decimal(65536), b"65536".to_vec());
}

#[test]
fn decimal_of_the_largest_number() {
    assert_eq!(to_decimal(usize::MAX), usize::MAX.to_string().into_bytes());
}

#[test]
fn decimal_is_read_back() {
    for n in [0usize, 1, 9, 10, 99, 100, 1000, 65535, 65536, 70000, usize::MAX] {
        assert_eq!(read_decimal(&to_decimal(n), usize::MAX), Reading::Value(n));
    }
}

#[test]
fn reading_numbers() {
    assert_eq!(read_decimal(b"0", 0), Reading::Value(0));
    assert_eq!(read_decimal(b"7", 10), Reading::Value(7));
    assert_eq!(read_decimal(b"10", 10), Reading::Value(10));
    assert_eq!(read_decimal(b"0010", 10), Reading::Value(10));
    assert_eq!(read_decimal(b"000000000000000000000000000000000000005", 5), Reading::Value(5));
}

#[test]
fn reading_numbers_above_the_limit() {
    assert_eq!(read_decimal(b"1", 0), Reading::TooLarge);
    assert_eq!(read_decimal(b"11", 10), Reading::TooLarge);
    assert_eq!(read_decimal(b"100", 99), Reading::TooLarge);
    assert_eq!(read_decimal(b"18446744073709551616", usize::MAX), Reading::TooLarge);
    assert_eq!(
        read_decimal(b"99999999999999999999999999999999999999999999", usize::MAX),
        Reading::TooLarge
    );
}

#[test]
fn reading_what_is_no_number() {
    for text in [&b""[..], b" ", b"a", b"1a", b"a1", b"-1", b"+1", b"1 ", b" 1", b"1.5", b"/", b":"] {
        assert_eq!(read_decimal(text, usize::MAX), Reading::Malformed);
    }
    assert_eq!(read_decimal(b"99999999999999999999999999999999999999999999x", 5), Reading::Malformed);
}
