use vstd::prelude::*;

use crate::de::PairView;
use crate::error::Error;
use crate::number::{decimal, decimal_int, format_i128, format_u128};
use crate::text::{chars_of, push_char};

verus! {

/// A character that forces a value to be quoted.
pub open spec fn is_special(c: char) -> bool {
    c == ' ' || c == '"' || c == '\\'
}

/// A value needs quotes when it is empty or holds a space, `"` or `\`.
pub open spec fn needs_quotes(s: Seq<char>) -> bool {
    s.len() == 0 || exists|i: int| 0 <= i < s.len() && #[trigger] is_special(s[i])
}

/// How one character is written inside quotes: `"` and `\` get a backslash.
pub open spec fn escape_char(c: char) -> Seq<char> {
    if c == '"' || c == '\\' {
        seq!['\\', c]
    } else {
        seq![c]
    }
}

/// The escaped form of a whole value.
pub open spec fn escape(s: Seq<char>) -> Seq<char>
    decreases s.len(),
{
    if s.len() == 0 {
        Seq::empty()
    } else {
        escape(s.drop_last()) + escape_char(s.last())
    }
}

/// The token a value is written as: verbatim when it is a bare token,
/// otherwise escaped and wrapped in quotes.
pub open spec fn spec_quote(s: Seq<char>) -> Seq<char> {
    if needs_quotes(s) {
        seq!['"'] + escape(s) + seq!['"']
    } else {
        s
    }
}

/// The output after appending `key=value`, with a space first unless the
/// output was empty.
pub open spec fn append_pair(out: Seq<char>, key: Seq<char>, value: Seq<char>) -> Seq<char> {
    (if out.len() == 0 {
        out
    } else {
        out.push(' ')
    }) + key + seq!['='] + value
}

/// The line after appending each of `pairs`, in order, to an empty line.
pub open spec fn appended(pairs: Seq<PairView>) -> Seq<char>
    decreases pairs.len(),
{
    if pairs.len() == 0 {
        Seq::empty()
    } else {
        append_pair(appended(pairs.drop_last()), pairs.last().0, pairs.last().1)
    }
}

/// The text `key=value` of one pair.
pub open spec fn pair_text(pair: PairView) -> Seq<char> {
    pair.0 + seq!['='] + pair.1
}

/// Pieces joined by single spaces, with no space before the first piece or
/// after the last.
pub open spec fn space_joined(pieces: Seq<Seq<char>>) -> Seq<char>
    decreases pieces.len(),
{
    if pieces.len() == 0 {
        Seq::empty()
    } else if pieces.len() == 1 {
        pieces[0]
    } else {
        space_joined(pieces.drop_last()) + seq![' '] + pieces.last()
    }
}

/// The line written for `pairs`: each pair appended in order as
/// `key=value`, the value quoted as needed.
pub open spec fn render_line(pairs: Seq<PairView>) -> Seq<char>
    decreases pairs.len(),
{
    if pairs.len() == 0 {
        Seq::empty()
    } else {
        append_pair(render_line(pairs.drop_last()), pairs.last().0, spec_quote(pairs.last().1))
    }
}

/// A key that reads back as itself: it holds no `=` and no space.
pub open spec fn is_valid_key(key: Seq<char>) -> bool {
    forall|i: int| 0 <= i < key.len() ==> key[i] != '=' && key[i] != ' '
}

/// Quote and escape a value if it cannot be represented as a bare token.
///
/// This is the inverse of the parser's decoding: bare tokens are returned
/// verbatim, while empty strings or strings containing a space, `"`, or `\`
/// are wrapped in quotes with `"` and `\` escaped.
pub fn quote_if_needed(s: &str) -> (out: String)
    ensures
        out@ == spec_quote(s@),
{
    let cs = chars_of(s);
    let n = cs.len();
    let mut special = false;
    let mut i: usize = 0;
    while i < n
        invariant
            n == cs.len(),
            cs@ == s@,
            i <= n,
            special == exists|j: int| 0 <= j < i && #[trigger] is_special(cs@[j]),
        decreases n - i,
    {
        if cs[i] == ' ' || cs[i] == '"' || cs[i] == '\\' {
            special = true;
        }
        proof {
            if is_special(cs@[i as int]) {
                assert(exists|j: int| 0 <= j < i + 1 && #[trigger] is_special(cs@[j]));
            }
        }
        i = i + 1;
    }
    if n > 0 && !special {
        return s.to_owned();
    }
    let mut out = String::new();
    push_char(&mut out, '"');
    let mut i: usize = 0;
    while i < n
        invariant
            n == cs.len(),
            cs@ == s@,
            i <= n,
            out@ == seq!['"'] + escape(cs@.take(i as int)),
        decreases n - i,
    {
        let c = cs[i];
        if c == '"' || c == '\\' {
            push_char(&mut out, '\\');
        }
        push_char(&mut out, c);
        proof {
            assert(cs@.take(i + 1).drop_last() =~= cs@.take(i as int));
            assert(out@ =~= seq!['"'] + escape(cs@.take(i + 1)));
        }
        i = i + 1;
    }
    push_char(&mut out, '"');
    proof {
        assert(cs@.take(n as int) =~= cs@);
    }
    out
}

/// The line being written: only structs and maps reach it.
pub struct Serializer {
    pub out: String,
}

impl Serializer {
    /// A serializer with an empty output line.
    pub fn new() -> (s: Serializer)
        ensures
            s.out@ == Seq::<char>::empty(),
    {
        Serializer { out: String::new() }
    }

    /// Append `key=value` to the output, inserting a space separator as needed.
    pub fn push_pair(&mut self, key: &str, value: &str)
        ensures
            final(self).out@ == append_pair(old(self).out@, key@, value@),
    {
        if !self.out.as_str().is_empty() {
            push_char(&mut self.out, ' ');
        }
        self.out.append(key);
        push_char(&mut self.out, '=');
        self.out.append(value);
    }

    /// Writes a struct field: `key=token` when the value produced a token,
    /// nothing when it is skipped (such as `None`).
    pub fn serialize_field(&mut self, key: &str, token: Option<String>)
        ensures
            match token {
                Some(t) => final(self).out@ == append_pair(old(self).out@, key@, t@),
                None => final(self).out@ == old(self).out@,
            },
    {
        match token {
            Some(t) => self.push_pair(key, t.as_str()),
            None => {},
        }
    }

    /// Writes a map entry: `key=token` when the value produced a token,
    /// nothing when it is skipped.
    pub fn serialize_entry(&mut self, key: String, token: Option<String>)
        ensures
            match token {
                Some(t) => final(self).out@ == append_pair(old(self).out@, key@, t@),
                None => final(self).out@ == old(self).out@,
            },
    {
        self.serialize_field(key.as_str(), token)
    }

    /// A scalar, a sequence or an enum cannot be the whole line.
    pub fn reject_scalar(&self) -> (e: Error)
        ensures
            e == Error::TopLevelNotMap,
    {
        Error::TopLevelNotMap
    }
}

/// The token written for a bool.
pub open spec fn bool_token(b: bool) -> Seq<char> {
    if b {
        "true"@
    } else {
        "false"@
    }
}

/// Serializer for a single value: it produces the value's token, or `None`
/// when the field is to be skipped.
pub struct ValueSerializer;

impl ValueSerializer {
    /// `true` or `false`.
    pub fn serialize_bool(&self, v: bool) -> (t: Option<String>)
        ensures
            t matches Some(s) && s@ == bool_token(v),
    {
        if v {
            Some("true".to_owned())
        } else {
            Some("false".to_owned())
        }
    }

    /// The decimal form of `v`.
    pub fn serialize_i8(&self, v: i8) -> (t: Option<String>)
        ensures
            t matches Some(s) && s@ == decimal_int(v as int),
    {
        Some(format_i128(v as i128))
    }

    /// The decimal form of `v`.
    pub fn serialize_i16(&self, v: i16) -> (t: Option<String>)
        ensures
            t matches Some(s) && s@ == decimal_int(v as int),
    {
        Some(format_i128(v as i128))
    }

    /// The decimal form of `v`.
    pub fn serialize_i32(&self, v: i32) -> (t: Option<String>)
        ensures
            t matches Some(s) && s@ == decimal_int(v as int),
    {
        Some(format_i128(v as i128))
    }

    /// The decimal form of `v`.
    pub fn serialize_i64(&self, v: i64) -> (t: Option<String>)
        ensures
            t matches Some(s) && s@ == decimal_int(v as int),
    {
        Some(format_i128(v as i128))
    }

    /// The decimal form of `v`.
    pub fn serialize_i128(&self, v: i128) -> (t: Option<String>)
        ensures
            t matches Some(s) && s@ == decimal_int(v as int),
    {
        Some(format_i128(v))
    }

    /// The decimal form of `v`.
    pub fn serialize_u8(&self, v: u8) -> (t: Option<String>)
        ensures
            t matches Some(s) && s@ == decimal(v as nat),
    {
        Some(format_u128(v as u128))
    }

    /// The decimal form of `v`.
    pub fn serialize_u16(&self, v: u16) -> (t: Option<String>)
        ensures
            t matches Some(s) && s@ == decimal(v as nat),
    {
        Some(format_u128(v as u128))
    }

    /// The decimal form of `v`.
    pub fn serialize_u32(&self, v: u32) -> (t: Option<String>)
        ensures
            t matches Some(s) && s@ == decimal(v as nat),
    {
        Some(format_u128(v as u128))
    }

    /// The decimal form of `v`.
    pub fn serialize_u64(&self, v: u64) -> (t: Option<String>)
        ensures
            t matches Some(s) && s@ == decimal(v as nat),
    {
        Some(format_u128(v as u128))
    }

    /// The decimal form of `v`.
    pub fn serialize_u128(&self, v: u128) -> (t: Option<String>)
        ensures
            t matches Some(s) && s@ == decimal(v as nat),
    {
        Some(format_u128(v))
    }

    /// The character as a one-character value, quoted as needed.
    pub fn serialize_char(&self, c: char) -> (t: Option<String>)
        ensures
            t matches Some(s) && s@ == spec_quote(seq![c]),
    {
        let mut one = String::new();
        push_char(&mut one, c);
        assert(one@ =~= seq![c]);
        Some(quote_if_needed(one.as_str()))
    }

    /// The string, quoted as needed.
    pub fn serialize_str(&self, v: &str) -> (t: Option<String>)
        ensures
            t matches Some(s) && s@ == spec_quote(v@),
    {
        Some(quote_if_needed(v))
    }

    /// `None` is skipped.
    pub fn serialize_none(&self) -> (t: Option<String>)
        ensures
            t is None,
    {
        None
    }

    /// A unit value is skipped.
    pub fn serialize_unit(&self) -> (t: Option<String>)
        ensures
            t is None,
    {
        None
    }

    /// A unit struct is skipped.
    pub fn serialize_unit_struct(&self, _name: &str) -> (t: Option<String>)
        ensures
            t is None,
    {
        None
    }

    /// A unit variant is written as its name, quoted as needed.
    pub fn serialize_unit_variant(&self, variant: &str) -> (t: Option<String>)
        ensures
            t matches Some(s) && s@ == spec_quote(variant@),
    {
        Some(quote_if_needed(variant))
    }

    /// Bytes are not supported.
    pub fn serialize_bytes(&self) -> (e: Error)
        ensures
            e == Error::Unsupported("bytes"),
    {
        Error::Unsupported("bytes")
    }

    /// An enum variant with data is not supported.
    pub fn serialize_newtype_variant(&self) -> (e: Error)
        ensures
            e == Error::Unsupported("enum"),
    {
        Error::Unsupported("enum")
    }

    /// A sequence is not supported.
    pub fn serialize_seq(&self) -> (e: Error)
        ensures
            e == Error::Unsupported("sequence"),
    {
        Error::Unsupported("sequence")
    }

    /// A tuple is not supported.
    pub fn serialize_tuple(&self) -> (e: Error)
        ensures
            e == Error::Unsupported("tuple"),
    {
        Error::Unsupported("tuple")
    }

    /// A tuple struct is not supported.
    pub fn serialize_tuple_struct(&self) -> (e: Error)
        ensures
            e == Error::Unsupported("tuple struct"),
    {
        Error::Unsupported("tuple struct")
    }

    /// A tuple variant is not supported.
    pub fn serialize_tuple_variant(&self) -> (e: Error)
        ensures
            e == Error::Unsupported("enum"),
    {
        Error::Unsupported("enum")
    }

    /// A nested map is not supported.
    pub fn serialize_map(&self) -> (e: Error)
        ensures
            e == Error::Unsupported("nested map"),
    {
        Error::Unsupported("nested map")
    }

    /// A nested struct is not supported.
    pub fn serialize_struct(&self) -> (e: Error)
        ensures
            e == Error::Unsupported("nested struct"),
    {
        Error::Unsupported("nested struct")
    }

    /// A struct variant is not supported.
    pub fn serialize_struct_variant(&self) -> (e: Error)
        ensures
            e == Error::Unsupported("enum"),
    {
        Error::Unsupported("enum")
    }
}

/// Serializer for map keys: only string-like keys are accepted.
pub struct KeySerializer;

impl KeySerializer {
    /// A string key is written as it is.
    pub fn serialize_str(&self, v: &str) -> (k: String)
        ensures
            k@ == v@,
    {
        v.to_owned()
    }

    /// A unit variant key is written as its name.
    pub fn serialize_unit_variant(&self, variant: &str) -> (k: String)
        ensures
            k@ == variant@,
    {
        variant.to_owned()
    }

    /// A char key is written as that one character.
    pub fn serialize_char(&self, c: char) -> (k: String)
        ensures
            k@ == seq![c],
    {
        let mut k = String::new();
        push_char(&mut k, c);
        assert(k@ =~= seq![c]);
        k
    }

    /// Any other key is rejected.
    pub fn reject(&self) -> (e: Error)
        ensures
            e == Error::Unsupported("non-string map key"),
    {
        Error::Unsupported("non-string map key")
    }
}

} // verus!
