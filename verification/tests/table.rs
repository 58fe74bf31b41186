//! Table-driven coverage for value interpretation, quoting, whitespace, and
//! numeric boundaries.

use serde_kv::{parse_line, Error, Serializer, ValueDeserializer, ValueSerializer};

fn lookup(line: &str, key: &str) -> Option<String> {
    parse_line(line).unwrap().into_iter().filter(|(k, _)| k == key).map(|(_, v)| v).last()
}

fn value(token: &str) -> ValueDeserializer {
    ValueDeserializer { token: token.to_string() }
}

#[test]
fn quoting_matrix() {
    let cases: &[(&str, &str)] = &[
        ("bar", "v=bar"),
        ("42", "v=42"),
        ("with=equals", "v=with=equals"),
        ("hello world", r#"v="hello world""#),
        ("", r#"v="""#),
        (r#"a"b"#, r#"v="a\"b""#),
        (r#"a\b"#, r#"v="a\\b""#),
        ("  spaces  ", r#"v="  spaces  ""#),
        ("tab\tok", "v=tab\tok"),
    ];
    for (raw, expected) in cases {
        let mut s = Serializer::new();
        s.serialize_field("v", ValueSerializer.serialize_str(raw));
        assert_eq!(s.out, *expected, "serialize {raw:?}");
        let back = lookup(&s.out, "v").unwrap();
        assert_eq!(back, *raw, "round-trip {raw:?}");
    }
}

#[test]
fn value_interpretation() {
    assert_eq!(lookup("v=42", "v").unwrap(), "42");
    assert_eq!(value(&lookup("v=-42", "v").unwrap()).deserialize_i64().unwrap(), -42);
    // Floats are read by std's parser on the decoded token.
    assert_eq!(lookup("v=2.5", "v").unwrap().parse::<f64>().unwrap(), 2.5);
    assert_eq!(lookup("v=1e3", "v").unwrap().parse::<f64>().unwrap(), 1000.0);
    assert!(value(&lookup("v=true", "v").unwrap()).deserialize_bool().unwrap());
    // Quotes never change interpretation.
    assert_eq!(value(&lookup(r#"v="-42""#, "v").unwrap()).deserialize_i64().unwrap(), -42);
}

#[test]
fn whitespace_handling() {
    let cases: &[&str] = &["a=1 b=2", "a=1   b=2", "  a=1 b=2", "a=1 b=2   ", "  a=1   b=2  "];
    for input in cases {
        let a = value(&lookup(input, "a").unwrap()).deserialize_u32().unwrap();
        let b = value(&lookup(input, "b").unwrap()).deserialize_u32().unwrap();
        assert_eq!((a, b), (1, 2), "input {input:?}");
    }
}

#[test]
fn empty_input() {
    assert!(parse_line("").unwrap().is_empty());
    assert!(parse_line("   ").unwrap().is_empty());
    // An absent optional field stays `None`.
    assert_eq!(lookup("", "a"), None);
}

#[test]
fn numeric_boundaries() {
    let fails: &[&str] = &["v=256", "v=-1", "v=3.5", "v=abc", "v="];
    for input in fails {
        let err = value(&lookup(input, "v").unwrap()).deserialize_u8().unwrap_err();
        assert!(matches!(err, Error::ParseInt(_)), "{input:?} -> {err:?}");
    }
    assert_eq!(value(&lookup("v=2147483647", "v").unwrap()).deserialize_i32().unwrap(), i32::MAX);
    assert!(matches!(
        value(&lookup("v=2147483648", "v").unwrap()).deserialize_i32().unwrap_err(),
        Error::ParseInt(_)
    ));
}

#[test]
fn unicode() {
    let line = r#"emoji="héllo 🌍" c=🦀"#;
    let emoji = lookup(line, "emoji").unwrap();
    let c = value(&lookup(line, "c").unwrap()).deserialize_char().unwrap();
    assert_eq!((emoji.as_str(), c), ("héllo 🌍", '🦀'));
    let mut s = Serializer::new();
    s.serialize_field("emoji", ValueSerializer.serialize_str(&emoji));
    s.serialize_field("c", ValueSerializer.serialize_char(c));
    assert_eq!(s.out, line);
}
