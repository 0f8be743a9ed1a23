use rpn_calc::{parse_i32, tokenize};

#[test]
fn tokenize_splits_on_ascii_whitespace() {
    assert_eq!(tokenize("2 3 +"), vec!["2", "3", "+"]);
    assert_eq!(tokenize("  a\t\tbb \n"), vec!["a", "bb"]);
    assert_eq!(tokenize("one"), vec!["one"]);
}

#[test]
fn tokenize_of_blank_lines_is_empty() {
    assert_eq!(tokenize(""), Vec::<String>::new());
    assert_eq!(tokenize(" \t \r\n"), Vec::<String>::new());
}

#[test]
fn parse_accepts_signed_decimal_literals() {
    assert_eq!(parse_i32("5"), Some(5));
    assert_eq!(parse_i32("-5"), Some(-5));
    assert_eq!(parse_i32("+7"), Some(7));
    assert_eq!(parse_i32("007"), Some(7));
    assert_eq!(parse_i32("0"), Some(0));
    assert_eq!(parse_i32("2147483647"), Some(i32::MAX));
    assert_eq!(parse_i32("-2147483648"), Some(i32::MIN));
}

#[test]
fn parse_rejects_everything_else() {
    assert_eq!(parse_i32(""), None);
    assert_eq!(parse_i32("+"), None);
    assert_eq!(parse_i32("-"), None);
    assert_eq!(parse_i32("3.5"), None);
    assert_eq!(parse_i32("12a"), None);
    assert_eq!(parse_i32(" 5"), None);
    assert_eq!(parse_i32("2147483648"), None);
    assert_eq!(parse_i32("-2147483649"), None);
    assert_eq!(parse_i32("99999999999999999999"), None);
}
