use vstd::prelude::*;

use crate::text::push_char;

verus! {

/// The error type for reading and writing the key/value format.
#[derive(Debug, Clone, PartialEq, Eq)]
pub enum Error {
    /// A custom message (missing field, unknown variant, etc.).
    Message(String),
    /// A token was missing its `=` separator.
    ExpectedEquals,
    /// A quoted value opened with `"` but never closed.
    UnterminatedQuote,
    /// A backslash was followed by something other than `"` or `\`.
    InvalidEscape(char),
    /// A token could not be parsed as the requested integer type.
    ParseInt(String),
    /// A token could not be parsed as the requested float type.
    ParseFloat(String),
    /// A token was not `true` or `false` for a bool field.
    ParseBool(String),
    /// A token was not exactly one character for a char field.
    ParseChar(String),
    /// A scalar or sequence at the top level; only structs and maps are allowed.
    TopLevelNotMap,
    /// A nested struct, sequence, map, or enum value (unsupported).
    Unsupported(&'static str),
}

/// The human-readable description of an error.
pub open spec fn spec_message(e: Error) -> Seq<char> {
    match e {
        Error::Message(msg) => msg@,
        Error::ExpectedEquals => "expected `=` separator in key/value pair"@,
        Error::UnterminatedQuote => "unterminated quoted value"@,
        Error::InvalidEscape(c) => "invalid escape sequence `\\"@ + seq![c] + "`"@,
        Error::ParseInt(t) => "invalid integer `"@ + t@ + "`"@,
        Error::ParseFloat(t) => "invalid float `"@ + t@ + "`"@,
        Error::ParseBool(t) => "invalid bool `"@ + t@ + "` (expected `true` or `false`)"@,
        Error::ParseChar(t) => "invalid char `"@ + t@ + "` (expected a single character)"@,
        Error::TopLevelNotMap => "top level value must be a struct or map of key/value pairs"@,
        Error::Unsupported(what) => "unsupported value type: "@ + what@,
    }
}

impl Error {
    /// The human-readable description of this error.
    pub fn message(&self) -> (m: String)
        ensures
            m@ == spec_message(*self),
    {
        match self {
            Error::Message(msg) => msg.clone(),
            Error::ExpectedEquals => "expected `=` separator in key/value pair".to_owned(),
            Error::UnterminatedQuote => "unterminated quoted value".to_owned(),
            Error::InvalidEscape(c) => {
                let mut m = "invalid escape sequence `\\".to_owned();
                push_char(&mut m, *c);
                m.append("`");
                m
            },
            Error::ParseInt(t) => {
                let mut m = "invalid integer `".to_owned();
                m.append(t.as_str());
                m.append("`");
                m
            },
            Error::ParseFloat(t) => {
                let mut m = "invalid float `".to_owned();
                m.append(t.as_str());
                m.append("`");
                m
            },
            Error::ParseBool(t) => {
                let mut m = "invalid bool `".to_owned();
                m.append(t.as_str());
                m.append("` (expected `true` or `false`)");
                m
            },
            Error::ParseChar(t) => {
                let mut m = "invalid char `".to_owned();
                m.append(t.as_str());
                m.append("` (expected a single character)");
                m
            },
            Error::TopLevelNotMap => "top level value must be a struct or map of key/value pairs".to_owned(),
            Error::Unsupported(what) => {
                let mut m = "unsupported value type: ".to_owned();
                m.append(what);
                m
            },
        }
    }

    /// An error carrying a custom message.
    pub fn custom(msg: String) -> (e: Error)
        ensures
            e == Error::Message(msg),
    {
        Error::Message(msg)
    }
}

} // verus!
