use log_sender::numstr::{format_u64, parse_u64};

#[test]
fn parsing_follows_the_standard_parser() {
    assert_eq!(parse_u64("0"), Some(0));
    assert_eq!(parse_u64("100"), Some(100));
    assert_eq!(parse_u64("+100"), Some(100));
    assert_eq!(parse_u64("18446744073709551615"), Some(u64::MAX));
    assert_eq!(parse_u64("18446744073709551616"), None);
    assert_eq!(parse_u64(""), None);
    assert_eq!(parse_u64("+"), None);
    assert_eq!(parse_u64("-1"), None);
    assert_eq!(parse_u64("12a"), None);
    assert_eq!(parse_u64(" 12"), None);
    // the reference: std's own parser agrees on each case
    for case in ["0", "100", "+100", "18446744073709551615", "18446744073709551616", "", "+", "-1", "12a", " 12"] {
        assert_eq!(parse_u64(case), case.parse::<u64>().ok(), "case {case:?}");
    }
}

#[test]
fn formatting_is_canonical_decimal() {
    assert_eq!(format_u64(0), "0");
    assert_eq!(format_u64(7), "7");
    assert_eq!(format_u64(1249), "1249");
    assert_eq!(format_u64(u64::MAX), "18446744073709551615");
}

#[test]
fn format_then_parse_is_identity() {
    for n in [0u64, 1, 9, 10, 99, 100, 123456789, u64::MAX] {
        assert_eq!(parse_u64(&format_u64(n)), Some(n));
    }
}
