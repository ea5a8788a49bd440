use pagerank::digits::{parse_index, render_index, ParseError};

#[test]
fn parse_accepts_plain_decimals() {
    assert_eq!(parse_index("0"), Ok(0));
    assert_eq!(parse_index("7"), Ok(7));
    assert_eq!(parse_index("10"), Ok(10));
    assert_eq!(parse_index("007"), Ok(7));
    assert_eq!(parse_index("4294967296"), Ok(4294967296));
}

#[test]
fn parse_accepts_a_leading_plus_sign() {
    assert_eq!(parse_index("+7"), Ok(7));
    assert_eq!(parse_index("+0"), Ok(0));
}

#[test]
fn parse_rejects_malformed_tokens() {
    assert_eq!(parse_index(""), Err(ParseError));
    assert_eq!(parse_index("+"), Err(ParseError));
    assert_eq!(parse_index("-1"), Err(ParseError));
    assert_eq!(parse_index("abc"), Err(ParseError));
    assert_eq!(parse_index("1 2"), Err(ParseError));
    assert_eq!(parse_index("1.5"), Err(ParseError));
    assert_eq!(parse_index("++1"), Err(ParseError));
}

#[test]
fn parse_handles_the_usize_boundary() {
    assert_eq!(parse_index(&usize::MAX.to_string()), Ok(usize::MAX));
    assert_eq!(parse_index("18446744073709551616"), Err(ParseError));
    assert_eq!(parse_index("99999999999999999999999999"), Err(ParseError));
}

#[test]
fn render_matches_std_formatting() {
    assert_eq!(render_index(0), "0");
    assert_eq!(render_index(9), "9");
    assert_eq!(render_index(10), "10");
    assert_eq!(render_index(90125), "90125");
    assert_eq!(render_index(usize::MAX), usize::MAX.to_string());
}

#[test]
fn render_then_parse_is_identity() {
    for n in [0usize, 1, 9, 10, 99, 100, 12345, usize::MAX] {
        assert_eq!(parse_index(&render_index(n)), Ok(n));
    }
}
