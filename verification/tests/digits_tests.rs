use elasticnow::digits::{dec_string, pad2_string, parse_i32_field, parse_i64_or_zero, IntParseError};

#[test]
fn test_parse_i64_matches_standard_parse() {
    for input in [
        "0",
        "7",
        "007",
        "+5",
        "-5",
        "9223372036854775807",
        "-9223372036854775808",
        "9223372036854775808",
        "-9223372036854775809",
        "",
        "+",
        "-",
        "12a",
        " 12",
        "--5",
    ] {
        assert_eq!(
            parse_i64_or_zero(input),
            input.parse::<i64>().unwrap_or_default(),
            "input {:?}",
            input
        );
    }
}

#[test]
fn test_parse_i32_error_cases_match_standard_parse() {
    assert_eq!(parse_i32_field("2147483647"), Ok(2147483647));
    assert_eq!(parse_i32_field("-2147483648"), Ok(-2147483648));
    assert_eq!(parse_i32_field("2147483648"), Err(IntParseError::TooLarge));
    assert_eq!(parse_i32_field("-2147483649"), Err(IntParseError::TooSmall));
    assert_eq!(parse_i32_field(""), Err(IntParseError::Empty));
    assert_eq!(parse_i32_field("+"), Err(IntParseError::BadDigit));
    assert_eq!(parse_i32_field("1 2"), Err(IntParseError::BadDigit));
    assert_eq!(parse_i32_field("+12"), Ok(12));
}

#[test]
fn test_decimal_rendering() {
    assert_eq!(dec_string(0), "0");
    assert_eq!(dec_string(7), "7");
    assert_eq!(dec_string(10), "10");
    assert_eq!(dec_string(18446744073709551615), "18446744073709551615");
    assert_eq!(pad2_string(0), "00");
    assert_eq!(pad2_string(9), "09");
    assert_eq!(pad2_string(10), "10");
    assert_eq!(pad2_string(123), "123");
}
