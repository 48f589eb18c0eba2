use room_registry::decimal::{parse_u32_decimal, u32_to_decimal};

#[test]
fn renders_exact_decimal_strings() {
    assert_eq!(u32_to_decimal(0), "0");
    assert_eq!(u32_to_decimal(7), "7");
    assert_eq!(u32_to_decimal(10), "10");
    assert_eq!(u32_to_decimal(120), "120");
    assert_eq!(u32_to_decimal(4294967295), "4294967295");
}

#[test]
fn parses_digit_strings() {
    assert_eq!(parse_u32_decimal("0"), Some(0));
    assert_eq!(parse_u32_decimal("120"), Some(120));
    assert_eq!(parse_u32_decimal("007"), Some(7));
    assert_eq!(parse_u32_decimal("4294967295"), Some(4294967295));
}

#[test]
fn rejects_non_counters() {
    assert_eq!(parse_u32_decimal(""), None);
    assert_eq!(parse_u32_decimal("12a"), None);
    assert_eq!(parse_u32_decimal("+5"), None);
    assert_eq!(parse_u32_decimal("-1"), None);
    assert_eq!(parse_u32_decimal(" 1"), None);
    assert_eq!(parse_u32_decimal("4294967296"), None);
}

#[test]
fn round_trips_through_a_string() {
    for n in [0u32, 1, 9, 10, 99, 100, 12345, 4294967295] {
        assert_eq!(parse_u32_decimal(&u32_to_decimal(n)), Some(n));
    }
}
