use tee_server::decimal::{format_usize, parse_decimal};

#[test]
fn format_matches_to_string() {
    for n in [0usize, 7, 10, 99, 100, 12345, usize::MAX] {
        assert_eq!(format_usize(n), n.to_string().into_bytes());
    }
}

#[test]
fn parse_accepts_what_std_accepts() {
    assert_eq!(parse_decimal(b"0"), Some(0));
    assert_eq!(parse_decimal(b"+42"), Some(42));
    assert_eq!(parse_decimal(b"007"), Some(7));
    assert_eq!(parse_decimal(usize::MAX.to_string().as_bytes()), Some(usize::MAX));
}

#[test]
fn parse_rejects_what_std_rejects() {
    for s in ["", "+", "-1", "++1", "1a", " 1", "18446744073709551616", "99999999999999999999999"] {
        assert_eq!(parse_decimal(s.as_bytes()), s.parse::<usize>().ok(), "{:?}", s);
        assert_eq!(parse_decimal(s.as_bytes()), None, "{:?}", s);
    }
}

#[test]
fn decimal_roundtrip_values() {
    for n in [0usize, 1, 9, 10, 255, 65536, 4294967296, usize::MAX - 1, usize::MAX] {
        assert_eq!(parse_decimal(&format_usize(n)), Some(n));
    }
}
