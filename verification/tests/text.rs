use smix_cli::text::{decimal_string, join_path, join_strings, parse_u16, IntError};

#[test]
fn decimal_writes_every_digit() {
    assert_eq!(decimal_string(0), "0");
    assert_eq!(decimal_string(7), "7");
    assert_eq!(decimal_string(22087), "22087");
    assert_eq!(decimal_string(1000000), "1000000");
}

#[test]
fn a_u16_parses_as_std_parses_it() {
    assert_eq!(parse_u16("0"), Ok(0));
    assert_eq!(parse_u16("+80"), Ok(80));
    assert_eq!(parse_u16("65535"), Ok(65535));
    assert_eq!(parse_u16("65536"), Err(IntError::PosOverflow));
    assert_eq!(parse_u16(""), Err(IntError::Empty));
    assert_eq!(parse_u16("+"), Err(IntError::InvalidDigit));
    assert_eq!(parse_u16("-1"), Err(IntError::InvalidDigit));
    assert_eq!(parse_u16("8a"), Err(IntError::InvalidDigit));
    for s in ["0", "1", "80", "8080", "65535", "65536", "", "+", "+7", "x", " 1"] {
        assert_eq!(parse_u16(s).ok(), s.parse::<u16>().ok(), "{s:?}");
    }
}

#[test]
fn paths_join_with_one_separator() {
    assert_eq!(join_path("/tmp/ws", ".smix"), "/tmp/ws/.smix");
    assert_eq!(join_path("/tmp/ws/", ".smix"), "/tmp/ws/.smix");
    assert_eq!(join_path("", "a"), "a");
    assert_eq!(join_path("/tmp", "/abs"), "/abs");
}

#[test]
fn strings_join_with_the_separator_between() {
    let parts = vec!["a".to_string(), "b".to_string(), "c".to_string()];
    assert_eq!(join_strings(&parts, ", "), "a, b, c");
    assert_eq!(join_strings(&[], ", "), "");
}
