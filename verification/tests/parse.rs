use serde_kv::{parse_line, Error};

fn pair(k: &str, v: &str) -> (String, String) {
    (k.to_string(), v.to_string())
}

#[test]
fn parses_bare_and_quoted() {
    let pairs = parse_line(r#"foo=bar baz=42 message="hello world""#).unwrap();
    assert_eq!(
        pairs,
        vec![
            ("foo".to_string(), "bar".to_string()),
            ("baz".to_string(), "42".to_string()),
            ("message".to_string(), "hello world".to_string()),
        ]
    );
}

#[test]
fn parses_empty_and_escapes() {
    let pairs = parse_line(r#"a= b="he said \"hi\" \\ ok""#).unwrap();
    assert_eq!(
        pairs,
        vec![
            ("a".to_string(), String::new()),
            ("b".to_string(), r#"he said "hi" \ ok"#.to_string()),
        ]
    );
}

#[test]
fn parse_errors() {
    assert_eq!(parse_line("foo"), Err(Error::ExpectedEquals));
    assert_eq!(parse_line(r#"a="oops"#), Err(Error::UnterminatedQuote));
    assert_eq!(parse_line(r#"a="\x""#), Err(Error::InvalidEscape('x')));
}

#[test]
fn parse_error_escape_at_end_is_unterminated() {
    assert_eq!(parse_line(r#"a="abc\"#), Err(Error::UnterminatedQuote));
}

#[test]
fn parse_empty_and_blank_lines() {
    assert_eq!(parse_line(""), Ok(vec![]));
    assert_eq!(parse_line("    "), Ok(vec![]));
}

#[test]
fn parse_key_token_without_separator() {
    assert_eq!(parse_line("a b=1"), Err(Error::ExpectedEquals));
    assert_eq!(parse_line("x=1 a b=2"), Err(Error::ExpectedEquals));
    assert_eq!(parse_line("x=1 a "), Err(Error::ExpectedEquals));
}

#[test]
fn parse_keys_may_hold_quotes_or_be_empty() {
    assert_eq!(parse_line(r#"k"=1"#), Ok(vec![pair("k\"", "1")]));
    assert_eq!(parse_line("=v"), Ok(vec![pair("", "v")]));
}

#[test]
fn parse_value_may_hold_equals_and_tabs() {
    assert_eq!(
        parse_line("a=b=c t=x\ty"),
        Ok(vec![pair("a", "b=c"), pair("t", "x\ty")])
    );
}

#[test]
fn parse_quote_ends_value_even_without_space() {
    assert_eq!(parse_line(r#"a="x"b=y"#), Ok(vec![pair("a", "x"), pair("b", "y")]));
}

#[test]
fn parse_bare_value_may_hold_quote_inside() {
    assert_eq!(parse_line(r#"a=x"y"#), Ok(vec![pair("a", "x\"y")]));
}

#[test]
fn parse_unicode() {
    assert_eq!(
        parse_line(r#"emoji="héllo 🌍" c=🦀"#),
        Ok(vec![pair("emoji", "héllo 🌍"), pair("c", "🦀")])
    );
}

#[test]
fn parse_duplicate_keys_are_all_kept_in_order() {
    assert_eq!(parse_line("a=1 a=2"), Ok(vec![pair("a", "1"), pair("a", "2")]));
}
