//! Token reading and writing, error messages, and the round-trip laws on
//! concrete values.

use serde_kv::number::{format_i128, format_u128};
use serde_kv::{parse_line, quote_if_needed, Error, Serializer, ValueDeserializer, ValueSerializer};

fn value(token: &str) -> ValueDeserializer {
    ValueDeserializer { token: token.to_string() }
}

#[test]
fn integer_tokens_follow_std_rules() {
    assert_eq!(value("+7").deserialize_u8(), Ok(7));
    assert_eq!(value("+7").deserialize_i8(), Ok(7));
    assert_eq!(value("-0").deserialize_i8(), Ok(0));
    assert_eq!(value("-0").deserialize_u8(), Err(Error::ParseInt("-0".into())));
    assert_eq!(value("+").deserialize_i32(), Err(Error::ParseInt("+".into())));
    assert_eq!(value("-").deserialize_i32(), Err(Error::ParseInt("-".into())));
    assert_eq!(value("").deserialize_u64(), Err(Error::ParseInt("".into())));
    assert_eq!(value(" 1").deserialize_u64(), Err(Error::ParseInt(" 1".into())));
    assert_eq!(value("007").deserialize_u16(), Ok(7));
    assert_eq!(value("١").deserialize_u16(), Err(Error::ParseInt("١".into())));
}

#[test]
fn integer_limits() {
    assert_eq!(value("-128").deserialize_i8(), Ok(i8::MIN));
    assert_eq!(value("127").deserialize_i8(), Ok(i8::MAX));
    assert!(value("128").deserialize_i8().is_err());
    assert!(value("-129").deserialize_i8().is_err());
    assert_eq!(value("65535").deserialize_u16(), Ok(u16::MAX));
    assert!(value("65536").deserialize_u16().is_err());
    assert_eq!(value("-32768").deserialize_i16(), Ok(i16::MIN));
    assert_eq!(value("4294967295").deserialize_u32(), Ok(u32::MAX));
    assert_eq!(value("-9223372036854775808").deserialize_i64(), Ok(i64::MIN));
    assert_eq!(value("18446744073709551615").deserialize_u64(), Ok(u64::MAX));
    assert!(value("18446744073709551616").deserialize_u64().is_err());
    let i128_min = "-170141183460469231731687303715884105728";
    assert_eq!(value(i128_min).deserialize_i128(), Ok(i128::MIN));
    assert_eq!(
        value("170141183460469231731687303715884105727").deserialize_i128(),
        Ok(i128::MAX)
    );
    assert!(value("170141183460469231731687303715884105728").deserialize_i128().is_err());
    let u128_max = "340282366920938463463374607431768211455";
    assert_eq!(value(u128_max).deserialize_u128(), Ok(u128::MAX));
    assert!(value("340282366920938463463374607431768211456").deserialize_u128().is_err());
    assert!(value("99999999999999999999999999999999999999999999").deserialize_u128().is_err());
    assert!(value("-99999999999999999999999999999999999999999999").deserialize_i128().is_err());
}

#[test]
fn integers_are_written_in_decimal() {
    assert_eq!(format_u128(0), "0");
    assert_eq!(format_u128(42), "42");
    assert_eq!(format_u128(u128::MAX), u128::MAX.to_string());
    assert_eq!(format_i128(-5), "-5");
    assert_eq!(format_i128(i128::MIN), i128::MIN.to_string());
    assert_eq!(ValueSerializer.serialize_i8(-128), Some("-128".to_string()));
    assert_eq!(ValueSerializer.serialize_i16(300), Some("300".to_string()));
    assert_eq!(ValueSerializer.serialize_i32(-7), Some("-7".to_string()));
    assert_eq!(ValueSerializer.serialize_i64(i64::MIN), Some(i64::MIN.to_string()));
    assert_eq!(ValueSerializer.serialize_i128(0), Some("0".to_string()));
    assert_eq!(ValueSerializer.serialize_u8(255), Some("255".to_string()));
    assert_eq!(ValueSerializer.serialize_u16(10), Some("10".to_string()));
    assert_eq!(ValueSerializer.serialize_u32(4294967295), Some("4294967295".to_string()));
    assert_eq!(ValueSerializer.serialize_u64(u64::MAX), Some(u64::MAX.to_string()));
    assert_eq!(ValueSerializer.serialize_u128(1), Some("1".to_string()));
}

#[test]
fn integers_read_back() {
    for v in [i64::MIN, -1000, -1, 0, 1, 9, 10, 99, 100, i64::MAX] {
        let t = ValueSerializer.serialize_i64(v).unwrap();
        assert_eq!(value(&t).deserialize_i64(), Ok(v));
    }
    for v in [0u64, 7, 10, 12345, u64::MAX] {
        let t = ValueSerializer.serialize_u64(v).unwrap();
        assert_eq!(value(&t).deserialize_u64(), Ok(v));
    }
}

#[test]
fn bools_and_chars_read_back() {
    for b in [true, false] {
        let t = ValueSerializer.serialize_bool(b).unwrap();
        assert_eq!(value(&t).deserialize_bool(), Ok(b));
    }
    assert_eq!(value("True").deserialize_bool(), Err(Error::ParseBool("True".into())));
    assert_eq!(value("").deserialize_char(), Err(Error::ParseChar("".into())));
    for c in ['x', ' ', '"', '\\', '🦀'] {
        let mut s = Serializer::new();
        s.serialize_field("c", ValueSerializer.serialize_char(c));
        let pairs = parse_line(&s.out).unwrap();
        assert_eq!(value(&pairs[0].1).deserialize_char(), Ok(c));
    }
}

#[test]
fn quote_only_when_needed() {
    assert_eq!(quote_if_needed("abc"), "abc");
    assert_eq!(quote_if_needed(""), "\"\"");
    assert_eq!(quote_if_needed("a b"), "\"a b\"");
    assert_eq!(quote_if_needed("\\"), "\"\\\\\"");
    assert_eq!(quote_if_needed("\"\""), "\"\\\"\\\"\"");
    assert_eq!(quote_if_needed("x\ny"), "x\ny");
    assert_eq!(ValueSerializer.serialize_unit_variant("Big Red"), Some("\"Big Red\"".to_string()));
}

#[test]
fn skipped_values() {
    assert_eq!(ValueSerializer.serialize_none(), None);
    assert_eq!(ValueSerializer.serialize_unit(), None);
    assert_eq!(ValueSerializer.serialize_unit_struct("U"), None);
    let mut s = Serializer::new();
    s.serialize_field("a", None);
    assert_eq!(s.out, "");
    s.push_pair("a", "1");
    s.serialize_field("b", None);
    assert_eq!(s.out, "a=1");
}

#[test]
fn appended_pairs_are_joined_by_single_spaces() {
    let mut s = Serializer::new();
    for (k, v) in [("a", "1"), ("b", ""), ("c", "x y")] {
        s.push_pair(k, v);
    }
    assert_eq!(s.out, "a=1 b= c=x y");
}

#[test]
fn push_pair_separates_with_one_space() {
    let mut s = Serializer::new();
    s.push_pair("k", "v");
    s.push_pair("", "w");
    s.push_pair("x", "\"y z\"");
    assert_eq!(s.out, "k=v =w x=\"y z\"");
}

#[test]
fn unsupported_values() {
    let v = ValueSerializer;
    assert_eq!(v.serialize_bytes(), Error::Unsupported("bytes"));
    assert_eq!(v.serialize_newtype_variant(), Error::Unsupported("enum"));
    assert_eq!(v.serialize_seq(), Error::Unsupported("sequence"));
    assert_eq!(v.serialize_tuple(), Error::Unsupported("tuple"));
    assert_eq!(v.serialize_tuple_struct(), Error::Unsupported("tuple struct"));
    assert_eq!(v.serialize_tuple_variant(), Error::Unsupported("enum"));
    assert_eq!(v.serialize_map(), Error::Unsupported("nested map"));
    assert_eq!(v.serialize_struct(), Error::Unsupported("nested struct"));
    assert_eq!(v.serialize_struct_variant(), Error::Unsupported("enum"));
    let d = value("x");
    assert_eq!(d.deserialize_seq(), Error::Unsupported("sequence"));
    assert_eq!(d.deserialize_tuple(), Error::Unsupported("tuple"));
    assert_eq!(d.deserialize_tuple_struct(), Error::Unsupported("tuple struct"));
    assert_eq!(d.deserialize_map(), Error::Unsupported("nested map"));
    assert_eq!(d.deserialize_struct(), Error::Unsupported("nested struct"));
    assert_eq!(d.deserialize_enum(), Error::Unsupported("enum"));
    assert_eq!(d.deserialize_bytes(), Error::Unsupported("bytes"));
}

#[test]
fn error_messages() {
    assert_eq!(Error::custom("missing field `a`".into()).message(), "missing field `a`");
    assert_eq!(Error::ExpectedEquals.message(), "expected `=` separator in key/value pair");
    assert_eq!(Error::UnterminatedQuote.message(), "unterminated quoted value");
    assert_eq!(Error::InvalidEscape('x').message(), "invalid escape sequence `\\x`");
    assert_eq!(Error::ParseInt("abc".into()).message(), "invalid integer `abc`");
    assert_eq!(Error::ParseFloat("x".into()).message(), "invalid float `x`");
    assert_eq!(
        Error::ParseBool("yes".into()).message(),
        "invalid bool `yes` (expected `true` or `false`)"
    );
    assert_eq!(
        Error::ParseChar("xy".into()).message(),
        "invalid char `xy` (expected a single character)"
    );
    assert_eq!(
        Error::TopLevelNotMap.message(),
        "top level value must be a struct or map of key/value pairs"
    );
    assert_eq!(Error::Unsupported("bytes").message(), "unsupported value type: bytes");
}

fn write(pairs: &[(&str, &str)]) -> String {
    let mut s = Serializer::new();
    for (k, v) in pairs {
        s.push_pair(k, &quote_if_needed(v));
    }
    s.out
}

#[test]
fn written_lines_read_back() {
    let cases: &[&[(&str, &str)]] = &[
        &[],
        &[("a", "")],
        &[("", "x")],
        &[("k", " lead"), ("k2", "trail "), ("q", "\"\\\""), ("n", "line\nbreak")],
        &[("a.b", "="), ("x\"y", "= =")],
        &[("dup", "1"), ("dup", "2")],
        &[("ü", "日本語 テキスト"), ("t", "\t")],
    ];
    for pairs in cases {
        let line = write(pairs);
        let back = parse_line(&line).unwrap();
        let expected: Vec<(String, String)> =
            pairs.iter().map(|(k, v)| (k.to_string(), v.to_string())).collect();
        assert_eq!(back, expected, "line {line:?}");
    }
}

#[test]
fn rewritten_lines_read_back() {
    for line in ["  a=1   b=\"x\"  ", "k=\"a b\"c=d", "x=\"\\\\\" y= z=\"\""] {
        let pairs = parse_line(line).unwrap();
        let mut s = Serializer::new();
        for (k, v) in &pairs {
            s.push_pair(k, &quote_if_needed(v));
        }
        assert_eq!(parse_line(&s.out).unwrap(), pairs, "line {line:?}");
    }
}

#[test]
fn quotes_do_not_change_value() {
    for v in ["42", "abc", "", "x=y", "日本"] {
        let bare = format!("k={v} z=1");
        let quoted = format!("k=\"{v}\" z=1");
        assert_eq!(parse_line(&bare), parse_line(&quoted), "value {v:?}");
    }
}

#[test]
fn written_lines_are_canonical() {
    for pairs in [
        vec![("m", "he said \"hi\" \\ ok"), ("e", ""), ("n", "-42"), ("b", "true")],
        vec![("emoji", "héllo 🌍"), ("c", "🦀")],
    ] {
        let line = write(&pairs);
        let decoded = parse_line(&line).unwrap();
        let mut s = Serializer::new();
        for (k, v) in &decoded {
            s.push_pair(k, &quote_if_needed(v));
        }
        assert_eq!(s.out, line);
    }
    for v in [i64::MIN, -1, 0, 42, i64::MAX] {
        let t = ValueSerializer.serialize_i64(v).unwrap();
        let again = ValueSerializer.serialize_i64(value(&t).deserialize_i64().unwrap()).unwrap();
        assert_eq!(again, t);
    }
}
