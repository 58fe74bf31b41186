//! A flat key/value line format.
//!
//! A line is a space-separated list of `key=value` pairs.  Values are bare
//! tokens, or double-quoted when they contain spaces or special characters:
//!
//! ```text
//! foo=bar baz=42 cool=true message="hello world"
//! ```
//!
//! There is no type inference at the format level: a token is read as the
//! type that is asked of it, so `42` is the string `"42"` for a string and
//! the integer `42` for an integer.  Quotes only carry a value, so `foo=42`
//! and `foo="42"` decode to the same value.

pub mod de;
pub mod error;
pub mod laws;
pub mod number;
pub mod ser;
pub mod text;

pub use de::{parse_line, Deserializer, KvMap, ValueDeserializer};
pub use error::Error;
pub use ser::{quote_if_needed, KeySerializer, Serializer, ValueSerializer};
