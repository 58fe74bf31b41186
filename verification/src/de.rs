use vstd::prelude::*;

use crate::error::Error;
use crate::number::{parse_int_parts, signed_value, spec_parse_int};
use crate::text::{chars_of, push_char};

verus! {

/// A decoded `(key, value)` pair, as character sequences.
pub type PairView = (Seq<char>, Seq<char>);

// The line grammar, read one character at a time.  Each function is the
// state of the reader; `acc` holds the pairs decoded so far.

/// Between pairs: spaces are skipped; anything else starts a key.
pub open spec fn scan_gap(s: Seq<char>, acc: Seq<PairView>) -> Result<Seq<PairView>, Error>
    decreases s.len(), 2int,
{
    if s.len() == 0 {
        Ok(acc)
    } else if s[0] == ' ' {
        scan_gap(s.drop_first(), acc)
    } else {
        scan_key(s, Seq::empty(), acc)
    }
}

/// Inside a key: it runs up to `=`; a space or the end of the line before
/// the `=` leaves the token without its separator.
pub open spec fn scan_key(s: Seq<char>, key: Seq<char>, acc: Seq<PairView>) -> Result<
    Seq<PairView>,
    Error,
>
    decreases s.len(), 1int,
{
    if s.len() == 0 || s[0] == ' ' {
        Err(Error::ExpectedEquals)
    } else if s[0] == '=' {
        scan_value(s.drop_first(), key, acc)
    } else {
        scan_key(s.drop_first(), key.push(s[0]), acc)
    }
}

/// Right after `=`: a `"` opens a quoted value, anything else is a bare value.
pub open spec fn scan_value(s: Seq<char>, key: Seq<char>, acc: Seq<PairView>) -> Result<
    Seq<PairView>,
    Error,
>
    decreases s.len(), 4int,
{
    if s.len() > 0 && s[0] == '"' {
        scan_quoted(s.drop_first(), key, Seq::empty(), acc)
    } else {
        scan_bare(s, key, Seq::empty(), acc)
    }
}

/// Inside a bare value: it runs until the next space or the end of the line.
pub open spec fn scan_bare(
    s: Seq<char>,
    key: Seq<char>,
    value: Seq<char>,
    acc: Seq<PairView>,
) -> Result<Seq<PairView>, Error>
    decreases s.len(), 3int,
{
    if s.len() == 0 || s[0] == ' ' {
        scan_gap(s, acc.push((key, value)))
    } else {
        scan_bare(s.drop_first(), key, value.push(s[0]), acc)
    }
}

/// Inside a quoted value: `\"` and `\\` decode to `"` and `\`, a bare `"` closes it.
pub open spec fn scan_quoted(
    s: Seq<char>,
    key: Seq<char>,
    value: Seq<char>,
    acc: Seq<PairView>,
) -> Result<Seq<PairView>, Error>
    decreases s.len(), 0int,
{
    if s.len() == 0 {
        Err(Error::UnterminatedQuote)
    } else if s[0] == '"' {
        scan_gap(s.drop_first(), acc.push((key, value)))
    } else if s[0] == '\\' {
        if s.len() == 1 {
            Err(Error::UnterminatedQuote)
        } else if s[1] == '"' || s[1] == '\\' {
            scan_quoted(s.skip(2), key, value.push(s[1]), acc)
        } else {
            Err(Error::InvalidEscape(s[1]))
        }
    } else {
        scan_quoted(s.drop_first(), key, value.push(s[0]), acc)
    }
}

/// What a whole line decodes to: its pairs in order, or the first error.
pub open spec fn spec_parse_line(s: Seq<char>) -> Result<Seq<PairView>, Error> {
    scan_gap(s, Seq::empty())
}

/// The decoded pairs of `r` as character sequences, or its error.
pub open spec fn pairs_result_view(r: Result<Vec<(String, String)>, Error>) -> Result<
    Seq<PairView>,
    Error,
> {
    match r {
        Ok(ps) => Ok(ps.deep_view()),
        Err(e) => Err(e),
    }
}

proof fn lemma_skip_step(s: Seq<char>, i: int)
    requires
        0 <= i < s.len(),
    ensures
        s.skip(i).len() == s.len() - i,
        s.skip(i)[0] == s[i],
        s.skip(i).drop_first() == s.skip(i + 1),
        i + 1 < s.len() ==> s.skip(i)[1] == s[i + 1],
        i + 1 < s.len() ==> s.skip(i).skip(2) == s.skip(i + 2),
{
    assert(s.skip(i).drop_first() =~= s.skip(i + 1));
    if i + 1 < s.len() {
        assert(s.skip(i).skip(2) =~= s.skip(i + 2));
    }
}

/// Split a key/value line into decoded `(key, value)` pairs.
///
/// Bare values run until the next space; quoted values may contain spaces and
/// use `\"` and `\\` escapes, which are decoded here.
pub fn parse_line(input: &str) -> (r: Result<Vec<(String, String)>, Error>)
    ensures
        pairs_result_view(r) == spec_parse_line(input@),
{
    let cs = chars_of(input);
    let n = cs.len();
    let mut pairs: Vec<(String, String)> = Vec::new();
    let mut i: usize = 0;
    proof {
        assert(cs@.skip(0) =~= cs@);
        assert(pairs.deep_view() =~= Seq::<PairView>::empty());
    }
    loop
        invariant
            cs@ == input@,
            n == cs.len(),
            i <= n,
            scan_gap(cs@.skip(i as int), pairs.deep_view()) == spec_parse_line(input@),
        decreases n - i,
    {
        let ghost top = i;
        // Skip the spaces separating pairs.
        while i < n && cs[i] == ' '
            invariant
                cs@ == input@,
                n == cs.len(),
                top <= i <= n,
                scan_gap(cs@.skip(i as int), pairs.deep_view()) == spec_parse_line(input@),
            decreases n - i,
        {
            proof {
                lemma_skip_step(cs@, i as int);
            }
            i = i + 1;
        }
        if i == n {
            proof {
                assert(cs@.skip(i as int).len() == 0);
            }
            return Ok(pairs);
        }
        let ghost start = i;
        // Read the key up to `=`.
        let mut key = String::new();
        proof {
            lemma_skip_step(cs@, i as int);
        }
        while i < n && cs[i] != '=' && cs[i] != ' '
            invariant
                cs@ == input@,
                n == cs.len(),
                start <= i <= n,
                scan_key(cs@.skip(i as int), key@, pairs.deep_view()) == spec_parse_line(input@),
            decreases n - i,
        {
            proof {
                lemma_skip_step(cs@, i as int);
            }
            push_char(&mut key, cs[i]);
            i = i + 1;
        }
        if i == n || cs[i] == ' ' {
            proof {
                if i < n {
                    lemma_skip_step(cs@, i as int);
                }
            }
            return Err(Error::ExpectedEquals);
        }
        proof {
            lemma_skip_step(cs@, i as int);
        }
        i = i + 1;
        assert(scan_value(cs@.skip(i as int), key@, pairs.deep_view()) == spec_parse_line(input@));
        // Read the value: quoted or bare.
        let mut value = String::new();
        assert(value@ == Seq::<char>::empty());
        if i < n && cs[i] == '"' {
            proof {
                lemma_skip_step(cs@, i as int);
            }
            i = i + 1;
            loop
                invariant_except_break
                    scan_quoted(cs@.skip(i as int), key@, value@, pairs.deep_view())
                        == spec_parse_line(input@),
                invariant
                    cs@ == input@,
                    n == cs.len(),
                    start < i <= n,
                ensures
                    scan_gap(cs@.skip(i as int), pairs.deep_view().push((key@, value@)))
                        == spec_parse_line(input@),
                decreases n - i,
            {
                if i == n {
                    proof {
                        assert(cs@.skip(i as int).len() == 0);
                    }
                    return Err(Error::UnterminatedQuote);
                }
                proof {
                    lemma_skip_step(cs@, i as int);
                }
                let c = cs[i];
                if c == '"' {
                    i = i + 1;
                    break ;
                } else if c == '\\' {
                    if i + 1 == n {
                        return Err(Error::UnterminatedQuote);
                    }
                    let e = cs[i + 1];
                    if e == '"' || e == '\\' {
                        push_char(&mut value, e);
                        i = i + 2;
                    } else {
                        return Err(Error::InvalidEscape(e));
                    }
                } else {
                    push_char(&mut value, c);
                    i = i + 1;
                }
            }
        } else {
            while i < n && cs[i] != ' '
                invariant
                    cs@ == input@,
                    n == cs.len(),
                    start < i <= n,
                    scan_bare(cs@.skip(i as int), key@, value@, pairs.deep_view())
                        == spec_parse_line(input@),
                decreases n - i,
            {
                proof {
                    lemma_skip_step(cs@, i as int);
                }
                push_char(&mut value, cs[i]);
                i = i + 1;
            }
            proof {
                if i < n {
                    lemma_skip_step(cs@, i as int);
                }
            }
        }
        let ghost before = pairs.deep_view();
        let ghost kv = (key@, value@);
        pairs.push((key, value));
        proof {
            assert(pairs.deep_view() =~= before.push(kv));
        }
    }
}

/// The integer token `t` denotes, when it lies in `[lo, hi]`.
pub open spec fn int_in_range(t: Seq<char>, signed: bool, lo: int, hi: int) -> Option<int> {
    match spec_parse_int(t, signed) {
        Some(v) => if lo <= v <= hi {
            Some(v)
        } else {
            None
        },
        None => None,
    }
}

/// Reads an unsigned integer token no greater than `max`.
fn parse_unsigned(token: &String, max: u128) -> (r: Option<u128>)
    ensures
        match r {
            Some(m) => m <= max && int_in_range(token@, false, 0, max as int) == Some(m as int),
            None => int_in_range(token@, false, 0, max as int) is None,
        },
{
    let cs = chars_of(token.as_str());
    match parse_int_parts(&cs, false) {
        Some((_neg, m)) => if m <= max {
            Some(m)
        } else {
            None
        },
        None => None,
    }
}

/// Reads a signed integer token in `[min, max]`.
fn parse_signed(token: &String, min: i128, max: i128) -> (r: Option<i128>)
    ensures
        match r {
            Some(v) => min <= v <= max && int_in_range(token@, true, min as int, max as int) == Some(
                v as int,
            ),
            None => int_in_range(token@, true, min as int, max as int) is None,
        },
{
    let cs = chars_of(token.as_str());
    match parse_int_parts(&cs, true) {
        Some((neg, m)) => match signed_value(neg, m) {
            Some(v) => if min <= v && v <= max {
                Some(v)
            } else {
                None
            },
            None => None,
        },
        None => None,
    }
}

/// The bool a token denotes: exactly `true` or `false`.
pub open spec fn spec_read_bool(t: Seq<char>) -> Option<bool> {
    if t == "true"@ {
        Some(true)
    } else if t == "false"@ {
        Some(false)
    } else {
        None
    }
}

/// Deserializer for a single decoded value token.
///
/// The token is read according to the requested type: a typed request
/// parses it, while a string request takes it verbatim.  This is what makes
/// `baz=42` become `"42"` for a string and `42` for an integer.
pub struct ValueDeserializer {
    pub token: String,
}

impl ValueDeserializer {
    /// The token as a bool: exactly `true` or `false`.
    pub fn deserialize_bool(self) -> (r: Result<bool, Error>)
        ensures
            r == (match spec_read_bool(self.token@) {
                Some(b) => Ok(b),
                None => Err(Error::ParseBool(self.token)),
            }),
    {
        let cs = chars_of(self.token.as_str());
        proof {
            reveal_strlit("true");
            reveal_strlit("false");
        }
        if cs.len() == 4 && cs[0] == 't' && cs[1] == 'r' && cs[2] == 'u' && cs[3] == 'e' {
            assert(cs@ =~= "true"@);
            Ok(true)
        } else if cs.len() == 5 && cs[0] == 'f' && cs[1] == 'a' && cs[2] == 'l' && cs[3] == 's'
            && cs[4] == 'e' {
            assert(cs@ =~= "false"@);
            Ok(false)
        } else {
            proof {
                if cs@ == "true"@ {
                    assert(cs@[0] == 't' && cs@[1] == 'r' && cs@[2] == 'u' && cs@[3] == 'e');
                }
                if cs@ == "false"@ {
                    assert(cs@[0] == 'f' && cs@[1] == 'a' && cs@[2] == 'l' && cs@[3] == 's'
                        && cs@[4] == 'e');
                }
            }
            Err(Error::ParseBool(self.token))
        }
    }

    /// The token as a char: it must be exactly one character.
    pub fn deserialize_char(self) -> (r: Result<char, Error>)
        ensures
            r == (if self.token@.len() == 1 {
                Ok(self.token@[0])
            } else {
                Err(Error::ParseChar(self.token))
            }),
    {
        let cs = chars_of(self.token.as_str());
        if cs.len() == 1 {
            Ok(cs[0])
        } else {
            Err(Error::ParseChar(self.token))
        }
    }

    /// A sequence cannot be read from a single value.
    pub fn deserialize_seq(&self) -> (e: Error)
        ensures
            e == Error::Unsupported("sequence"),
    {
        Error::Unsupported("sequence")
    }

    /// A tuple cannot be read from a single value.
    pub fn deserialize_tuple(&self) -> (e: Error)
        ensures
            e == Error::Unsupported("tuple"),
    {
        Error::Unsupported("tuple")
    }

    /// A tuple struct cannot be read from a single value.
    pub fn deserialize_tuple_struct(&self) -> (e: Error)
        ensures
            e == Error::Unsupported("tuple struct"),
    {
        Error::Unsupported("tuple struct")
    }

    /// A nested map cannot be read from a single value.
    pub fn deserialize_map(&self) -> (e: Error)
        ensures
            e == Error::Unsupported("nested map"),
    {
        Error::Unsupported("nested map")
    }

    /// A nested struct cannot be read from a single value.
    pub fn deserialize_struct(&self) -> (e: Error)
        ensures
            e == Error::Unsupported("nested struct"),
    {
        Error::Unsupported("nested struct")
    }

    /// An enum cannot be read from a single value.
    pub fn deserialize_enum(&self) -> (e: Error)
        ensures
            e == Error::Unsupported("enum"),
    {
        Error::Unsupported("enum")
    }

    /// Bytes cannot be read from a single value.
    pub fn deserialize_bytes(&self) -> (e: Error)
        ensures
            e == Error::Unsupported("bytes"),
    {
        Error::Unsupported("bytes")
    }

    /// The token as an `i8`.
    pub fn deserialize_i8(self) -> (r: Result<i8, Error>)
        ensures
            match r {
                Ok(n) => int_in_range(self.token@, true, i8::MIN as int, i8::MAX as int) == Some(
                    n as int,
                ),
                Err(e) => int_in_range(self.token@, true, i8::MIN as int, i8::MAX as int) is None
                    && e == Error::ParseInt(self.token),
            },
    {
        match parse_signed(&self.token, i8::MIN as i128, i8::MAX as i128) {
            Some(v) => Ok(v as i8),
            None => Err(Error::ParseInt(self.token)),
        }
    }

    /// The token as an `i16`.
    pub fn deserialize_i16(self) -> (r: Result<i16, Error>)
        ensures
            match r {
                Ok(n) => int_in_range(self.token@, true, i16::MIN as int, i16::MAX as int)
                    == Some(n as int),
                Err(e) => int_in_range(self.token@, true, i16::MIN as int, i16::MAX as int) is None
                    && e == Error::ParseInt(self.token),
            },
    {
        match parse_signed(&self.token, i16::MIN as i128, i16::MAX as i128) {
            Some(v) => Ok(v as i16),
            None => Err(Error::ParseInt(self.token)),
        }
    }

    /// The token as an `i32`.
    pub fn deserialize_i32(self) -> (r: Result<i32, Error>)
        ensures
            match r {
                Ok(n) => int_in_range(self.token@, true, i32::MIN as int, i32::MAX as int)
                    == Some(n as int),
                Err(e) => int_in_range(self.token@, true, i32::MIN as int, i32::MAX as int) is None
                    && e == Error::ParseInt(self.token),
            },
    {
        match parse_signed(&self.token, i32::MIN as i128, i32::MAX as i128) {
            Some(v) => Ok(v as i32),
            None => Err(Error::ParseInt(self.token)),
        }
    }

    /// The token as an `i64`.
    pub fn deserialize_i64(self) -> (r: Result<i64, Error>)
        ensures
            match r {
                Ok(n) => int_in_range(self.token@, true, i64::MIN as int, i64::MAX as int)
                    == Some(n as int),
                Err(e) => int_in_range(self.token@, true, i64::MIN as int, i64::MAX as int) is None
                    && e == Error::ParseInt(self.token),
            },
    {
        match parse_signed(&self.token, i64::MIN as i128, i64::MAX as i128) {
            Some(v) => Ok(v as i64),
            None => Err(Error::ParseInt(self.token)),
        }
    }

    /// The token as an `i128`.
    pub fn deserialize_i128(self) -> (r: Result<i128, Error>)
        ensures
            match r {
                Ok(n) => int_in_range(self.token@, true, i128::MIN as int, i128::MAX as int)
                    == Some(n as int),
                Err(e) => int_in_range(self.token@, true, i128::MIN as int, i128::MAX as int)
                    is None && e == Error::ParseInt(self.token),
            },
    {
        match parse_signed(&self.token, i128::MIN, i128::MAX) {
            Some(v) => Ok(v),
            None => Err(Error::ParseInt(self.token)),
        }
    }

    /// The token as a `u8`.
    pub fn deserialize_u8(self) -> (r: Result<u8, Error>)
        ensures
            match r {
                Ok(n) => int_in_range(self.token@, false, 0, u8::MAX as int) == Some(n as int),
                Err(e) => int_in_range(self.token@, false, 0, u8::MAX as int) is None && e
                    == Error::ParseInt(self.token),
            },
    {
        match parse_unsigned(&self.token, u8::MAX as u128) {
            Some(m) => Ok(m as u8),
            None => Err(Error::ParseInt(self.token)),
        }
    }

    /// The token as a `u16`.
    pub fn deserialize_u16(self) -> (r: Result<u16, Error>)
        ensures
            match r {
                Ok(n) => int_in_range(self.token@, false, 0, u16::MAX as int) == Some(n as int),
                Err(e) => int_in_range(self.token@, false, 0, u16::MAX as int) is None && e
                    == Error::ParseInt(self.token),
            },
    {
        match parse_unsigned(&self.token, u16::MAX as u128) {
            Some(m) => Ok(m as u16),
            None => Err(Error::ParseInt(self.token)),
        }
    }

    /// The token as a `u32`.
    pub fn deserialize_u32(self) -> (r: Result<u32, Error>)
        ensures
            match r {
                Ok(n) => int_in_range(self.token@, false, 0, u32::MAX as int) == Some(n as int),
                Err(e) => int_in_range(self.token@, false, 0, u32::MAX as int) is None && e
                    == Error::ParseInt(self.token),
            },
    {
        match parse_unsigned(&self.token, u32::MAX as u128) {
            Some(m) => Ok(m as u32),
            None => Err(Error::ParseInt(self.token)),
        }
    }

    /// The token as a `u64`.
    pub fn deserialize_u64(self) -> (r: Result<u64, Error>)
        ensures
            match r {
                Ok(n) => int_in_range(self.token@, false, 0, u64::MAX as int) == Some(n as int),
                Err(e) => int_in_range(self.token@, false, 0, u64::MAX as int) is None && e
                    == Error::ParseInt(self.token),
            },
    {
        match parse_unsigned(&self.token, u64::MAX as u128) {
            Some(m) => Ok(m as u64),
            None => Err(Error::ParseInt(self.token)),
        }
    }

    /// The token as a `u128`.
    pub fn deserialize_u128(self) -> (r: Result<u128, Error>)
        ensures
            match r {
                Ok(n) => int_in_range(self.token@, false, 0, u128::MAX as int) == Some(n as int),
                Err(e) => int_in_range(self.token@, false, 0, u128::MAX as int) is None && e
                    == Error::ParseInt(self.token),
            },
    {
        match parse_unsigned(&self.token, u128::MAX) {
            Some(m) => Ok(m),
            None => Err(Error::ParseInt(self.token)),
        }
    }
}

/// Top-level deserializer: the whole line is a map of key/value pairs.
pub struct Deserializer {
    pub pairs: Vec<(String, String)>,
}

impl Deserializer {
    /// A deserializer over the decoded pairs of `input`, or the error that
    /// decoding the line gives.
    pub fn from_line(input: &str) -> (r: Result<Deserializer, Error>)
        ensures
            match r {
                Ok(d) => spec_parse_line(input@) == Ok::<Seq<PairView>, Error>(d.pairs.deep_view()),
                Err(e) => spec_parse_line(input@) == Err::<Seq<PairView>, Error>(e),
            },
    {
        match parse_line(input) {
            Ok(pairs) => Ok(Deserializer { pairs }),
            Err(e) => Err(e),
        }
    }

    /// A struct, a map or any other request reads the pairs as a map, in
    /// line order.
    pub fn deserialize_map(self) -> (m: KvMap)
        ensures
            m.remaining() == self.pairs.deep_view(),
            m.pending() is None,
    {
        let m = KvMap { pairs: self.pairs, next: 0, value: None };
        assert(m.pairs.deep_view().skip(0) =~= m.pairs.deep_view());
        m
    }

    /// A whole line cannot become a scalar or a sequence.
    pub fn reject_scalar(&self) -> (e: Error)
        ensures
            e == Error::TopLevelNotMap,
    {
        Error::TopLevelNotMap
    }
}

/// Map access over the decoded pairs: keys are handed out in line order,
/// each followed by its value.
pub struct KvMap {
    pairs: Vec<(String, String)>,
    next: usize,
    value: Option<String>,
}

impl KvMap {
    #[verifier::type_invariant]
    spec fn well_formed(self) -> bool {
        self.next <= self.pairs.len()
    }

    /// The pairs whose keys have not been handed out yet, in order.
    pub closed spec fn remaining(self) -> Seq<PairView> {
        self.pairs.deep_view().skip(self.next as int)
    }

    /// The value of the last key handed out, until it is taken.
    pub closed spec fn pending(self) -> Option<Seq<char>> {
        self.value.deep_view()
    }

    /// Hands out the next key and holds its value, or `None` at the end.
    pub fn next_key(&mut self) -> (k: Option<String>)
        ensures
            match k {
                Some(k) => {
                    &&& old(self).remaining().len() > 0
                    &&& k@ == old(self).remaining()[0].0
                    &&& final(self).pending() == Some(old(self).remaining()[0].1)
                    &&& final(self).remaining() == old(self).remaining().drop_first()
                },
                None => {
                    &&& old(self).remaining().len() == 0
                    &&& final(self).remaining() == old(self).remaining()
                    &&& final(self).pending() == old(self).pending()
                },
            },
    {
        proof {
            use_type_invariant(&*self);
        }
        if self.next < self.pairs.len() {
            let ghost before = self.pairs.deep_view().skip(self.next as int);
            let key = self.pairs[self.next].0.clone();
            let value = self.pairs[self.next].1.clone();
            self.value = Some(value);
            self.next = self.next + 1;
            proof {
                assert(self.pairs.deep_view().skip(self.next as int) =~= before.drop_first());
            }
            Some(key)
        } else {
            None
        }
    }

    /// Whether a value is held for the last key handed out.
    pub fn has_pending(&self) -> (b: bool)
        ensures
            b == self.pending() is Some,
    {
        self.value.is_some()
    }

    /// Takes the value of the last key handed out.
    pub fn next_value(&mut self) -> (v: String)
        requires
            old(self).pending() is Some,
        ensures
            v@ == old(self).pending().unwrap(),
            final(self).pending() is None,
            final(self).remaining() == old(self).remaining(),
    {
        proof {
            use_type_invariant(&*self);
        }
        let v = self.value.clone().unwrap();
        self.value = None;
        v
    }
}

} // verus!
