use wattmeter::text::{
    contains, decimal, eq_ignore_ascii_case, join, lex_le_str, parse_i64, parse_u64, trim,
};

#[test]
fn parses_integers_as_the_standard_library_does() {
    for s in ["0", "42", "+7", "-7", "-0", "9223372036854775807", "-9223372036854775808",
        "9223372036854775808", "", "-", "+", "1 2", "x", "12a", "-+1", "007"] {
        assert_eq!(parse_i64(s), s.parse::<i64>().ok(), "{s:?}");
    }
    for s in ["0", "+18446744073709551615", "18446744073709551616", "-1", "-0", "", "+", "99"] {
        assert_eq!(parse_u64(s), s.parse::<u64>().ok(), "{s:?}");
    }
}

#[test]
fn trims_as_the_standard_library_does() {
    for s in ["", "   ", " a b ", "\u{2003}x\u{205f}", "\n47\n", "x"] {
        assert_eq!(trim(s), s.trim());
    }
}

#[test]
fn writes_decimals_and_joins() {
    assert_eq!(decimal(0), "0");
    assert_eq!(decimal(18_446_744_073_709_551_615), "18446744073709551615");
    assert_eq!(join(&vec!["BAT0".to_owned(), "BAT1".to_owned()], ", "), "BAT0, BAT1");
    assert_eq!(join(&vec![], ", "), "");
}

#[test]
fn compares_strings() {
    assert!(eq_ignore_ascii_case("bat0", "BAT0"));
    assert!(!eq_ignore_ascii_case("bat0", "bat1"));
    assert!(contains("xx24bitxx", "24bit"));
    assert!(lex_le_str("intel-rapl:0", "intel-rapl:0:1"));
    assert!(!lex_le_str("intel-rapl:1", "intel-rapl:0:1"));
}
