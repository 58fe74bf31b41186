use vstd::prelude::*;

use crate::de::{spec_read_bool, scan_bare, scan_gap, scan_key, scan_quoted, scan_value, spec_parse_line, PairView};
use crate::number::{all_digits, decimal, decimal_int, digit_value, digits_value, is_digit, spec_parse_int};
use crate::ser::{appended, pair_text, space_joined, bool_token, escape, escape_char, is_special, is_valid_key, needs_quotes, render_line, spec_quote};

verus! {

/// Reading a run of key characters (no `=`, no space) appends them to the key.
proof fn lemma_scan_key_run(k: Seq<char>, t: Seq<char>, key: Seq<char>, acc: Seq<PairView>)
    requires
        is_valid_key(k),
    ensures
        scan_key(k + t, key, acc) == scan_key(t, key + k, acc),
    decreases k.len(),
{
    if k.len() == 0 {
        assert(k + t =~= t);
        assert(key + k =~= key);
    } else {
        let k1 = k.drop_last();
        let c = k.last();
        let t1 = seq![c] + t;
        assert(k + t =~= k1 + t1);
        assert(is_valid_key(k1)) by {
            assert forall|i: int| 0 <= i < k1.len() implies k1[i] != '=' && k1[i] != ' ' by {
                assert(k1[i] == k[i]);
            }
        }
        assert(c != '=' && c != ' ');
        lemma_scan_key_run(k1, t1, key, acc);
        assert(t1.drop_first() =~= t);
        assert((key + k1).push(c) =~= key + k);
    }
}

/// Reading a run of bare value characters (no space) appends them to the value.
proof fn lemma_scan_bare_run(
    v: Seq<char>,
    t: Seq<char>,
    key: Seq<char>,
    value: Seq<char>,
    acc: Seq<PairView>,
)
    requires
        forall|i: int| 0 <= i < v.len() ==> v[i] != ' ',
    ensures
        scan_bare(v + t, key, value, acc) == scan_bare(t, key, value + v, acc),
    decreases v.len(),
{
    if v.len() == 0 {
        assert(v + t =~= t);
        assert(value + v =~= value);
    } else {
        let v1 = v.drop_last();
        let c = v.last();
        let t1 = seq![c] + t;
        assert(v + t =~= v1 + t1);
        lemma_scan_bare_run(v1, t1, key, value, acc);
        assert(t1.drop_first() =~= t);
        assert((value + v1).push(c) =~= value + v);
    }
}

/// Reading an escaped value inside quotes decodes it back to the value.
proof fn lemma_scan_escaped(
    v: Seq<char>,
    t: Seq<char>,
    key: Seq<char>,
    value: Seq<char>,
    acc: Seq<PairView>,
)
    ensures
        scan_quoted(escape(v) + t, key, value, acc) == scan_quoted(t, key, value + v, acc),
    decreases v.len(),
{
    if v.len() == 0 {
        assert(escape(v) + t =~= t);
        assert(value + v =~= value);
    } else {
        let v1 = v.drop_last();
        let c = v.last();
        let t1 = escape_char(c) + t;
        assert(escape(v) + t =~= escape(v1) + t1);
        lemma_scan_escaped(v1, t1, key, value, acc);
        if c == '"' || c == '\\' {
            assert(t1.skip(2) =~= t);
        } else {
            assert(t1.drop_first() =~= t);
        }
        assert((value + v1).push(c) =~= value + v);
    }
}

/// A written value, followed by a space or the end, reads back as itself.
proof fn lemma_scan_written_value(
    v: Seq<char>,
    rest: Seq<char>,
    key: Seq<char>,
    acc: Seq<PairView>,
)
    requires
        rest.len() == 0 || rest[0] == ' ',
    ensures
        scan_value(spec_quote(v) + rest, key, acc) == scan_gap(rest, acc.push((key, v))),
{
    let s = spec_quote(v) + rest;
    if needs_quotes(v) {
        let t = seq!['"'] + rest;
        assert(s.drop_first() =~= escape(v) + t);
        lemma_scan_escaped(v, t, key, Seq::empty(), acc);
        assert(Seq::<char>::empty() + v =~= v);
        assert(t.drop_first() =~= rest);
    } else {
        assert(v.len() > 0);
        assert(!is_special(v[0]));
        assert forall|i: int| 0 <= i < v.len() implies v[i] != ' ' by {
            assert(!is_special(v[i]));
        }
        lemma_scan_bare_run(v, rest, key, Seq::empty(), acc);
        assert(Seq::<char>::empty() + v =~= v);
    }
}

/// A written pair, followed by a space or the end, reads back as itself.
proof fn lemma_scan_written_pair(
    key: Seq<char>,
    v: Seq<char>,
    rest: Seq<char>,
    acc: Seq<PairView>,
)
    requires
        is_valid_key(key),
        rest.len() == 0 || rest[0] == ' ',
    ensures
        scan_gap(key + seq!['='] + spec_quote(v) + rest, acc) == scan_gap(
            rest,
            acc.push((key, v)),
        ),
{
    let s = key + seq!['='] + spec_quote(v) + rest;
    let t = seq!['='] + spec_quote(v) + rest;
    assert(s =~= key + t);
    assert(key.len() > 0 ==> key[0] != ' ');
    assert(s[0] != ' ');
    lemma_scan_key_run(key, t, Seq::empty(), acc);
    assert(Seq::<char>::empty() + key =~= key);
    assert(t.drop_first() =~= spec_quote(v) + rest);
    lemma_scan_written_value(v, rest, key, acc);
}

/// Written pairs, followed by a space or the end, read back as themselves.
proof fn lemma_scan_written_line(ps: Seq<PairView>, rest: Seq<char>, acc: Seq<PairView>)
    requires
        forall|i: int| 0 <= i < ps.len() ==> is_valid_key(#[trigger] ps[i].0),
        rest.len() == 0 || rest[0] == ' ',
    ensures
        scan_gap(render_line(ps) + rest, acc) == scan_gap(rest, acc + ps),
    decreases ps.len(),
{
    if ps.len() == 0 {
        assert(render_line(ps) + rest =~= rest);
        assert(acc + ps =~= acc);
    } else {
        let ps1 = ps.drop_last();
        let (k, v) = ps.last();
        let q = spec_quote(v);
        let r1 = render_line(ps1);
        assert(is_valid_key(ps[ps.len() - 1].0));
        assert((acc + ps1).push((k, v)) =~= acc + ps);
        if ps1.len() == 0 {
            assert(r1 =~= Seq::<char>::empty());
            assert(render_line(ps) + rest =~= k + seq!['='] + q + rest);
            lemma_scan_written_pair(k, v, rest, acc);
            assert(acc + ps1 =~= acc);
        } else {
            assert(r1.len() > 0);
            let rest1 = seq![' '] + k + seq!['='] + q + rest;
            assert(render_line(ps) + rest =~= r1 + rest1);
            assert forall|i: int| 0 <= i < ps1.len() implies is_valid_key(#[trigger] ps1[i].0) by {
                assert(ps1[i] == ps[i]);
            }
            lemma_scan_written_line(ps1, rest1, acc);
            assert(rest1.drop_first() =~= k + seq!['='] + q + rest);
            lemma_scan_written_pair(k, v, rest, acc + ps1);
        }
    }
}

/// Writing pairs whose keys hold no `=` and no space, and reading the line
/// back, gives the same pairs in the same order, whatever
/// the values hold.
pub proof fn law_written_line_reads_back(pairs: Seq<PairView>)
    requires
        keys_valid(pairs),
    ensures
        spec_parse_line(render_line(pairs)) == Ok::<Seq<PairView>, crate::error::Error>(pairs),
{
    lemma_scan_written_line(pairs, Seq::empty(), Seq::empty());
    assert(render_line(pairs) + Seq::<char>::empty() =~= render_line(pairs));
    assert(Seq::<PairView>::empty() + pairs =~= pairs);
}

/// The digits written for `n` are decimal digits that denote `n`.
proof fn lemma_decimal_digits(n: nat)
    ensures
        decimal(n).len() >= 1,
        all_digits(decimal(n)),
        digits_value(decimal(n)) == n,
    decreases n,
{
    let s = decimal(n);
    if n >= 10 {
        lemma_decimal_digits(n / 10);
        assert(s.drop_last() =~= decimal(n / 10));
        assert(digit_value(s.last()) == n % 10);
        assert((n / 10) * 10 + n % 10 == n);
        assert(digits_value(s) == n);
        assert forall|i: int| 0 <= i < s.len() implies #[trigger] is_digit(s[i]) by {
            if i < s.len() - 1 {
                assert(is_digit(decimal(n / 10)[i]));
            }
        }
    } else {
        assert(s.drop_last() =~= Seq::<char>::empty());
        assert(digit_value(s.last()) == n);
        assert(digits_value(s.drop_last()) == 0);
    }
}

/// Writing an integer and reading it back gives the same integer; a
/// non-negative one reads back the same whether or not the target type is
/// signed.
pub proof fn law_integer_reads_back(v: int)
    ensures
        spec_parse_int(decimal_int(v), true) == Some(v),
        v >= 0 ==> spec_parse_int(decimal_int(v), false) == Some(v),
{
    if v < 0 {
        let m = (-v) as nat;
        lemma_decimal_digits(m);
        let s = decimal_int(v);
        assert(s.drop_first() =~= decimal(m));
        assert(is_digit(decimal(m)[0]));
    } else {
        lemma_decimal_digits(v as nat);
        assert(is_digit(decimal(v as nat)[0]));
    }
}

/// A value without `"` or `\` escapes to itself.
proof fn lemma_escape_plain(v: Seq<char>)
    requires
        forall|i: int| 0 <= i < v.len() ==> v[i] != '"' && v[i] != '\\',
    ensures
        escape(v) == v,
    decreases v.len(),
{
    if v.len() > 0 {
        lemma_escape_plain(v.drop_last());
        assert(escape(v) =~= v);
    }
}

/// A value holding no space, `"` or `\` decodes to the same value bare or
/// quoted: quotes only carry values, they never change them.
pub proof fn law_quotes_do_not_change_value(key: Seq<char>, v: Seq<char>, rest: Seq<char>)
    requires
        is_valid_key(key),
        forall|i: int| 0 <= i < v.len() ==> !is_special(#[trigger] v[i]),
        rest.len() == 0 || rest[0] == ' ',
    ensures
        spec_parse_line(key + seq!['='] + v + rest) == spec_parse_line(
            key + seq!['=', '"'] + v + seq!['"'] + rest,
        ),
{
    let acc = Seq::<PairView>::empty();
    let bare = key + seq!['='] + v + rest;
    let quoted = key + seq!['=', '"'] + v + seq!['"'] + rest;
    // Both lines read the key first.
    let tb = seq!['='] + v + rest;
    let tq = seq!['=', '"'] + v + seq!['"'] + rest;
    assert(bare =~= key + tb);
    assert(quoted =~= key + tq);
    assert(key.len() > 0 ==> key[0] != ' ');
    assert(bare[0] != ' ');
    assert(quoted[0] != ' ');
    lemma_scan_key_run(key, tb, Seq::empty(), acc);
    lemma_scan_key_run(key, tq, Seq::empty(), acc);
    assert(Seq::<char>::empty() + key =~= key);
    // The bare value runs to the space or the end.
    assert(tb.drop_first() =~= v + rest);
    assert forall|i: int| 0 <= i < v.len() implies v[i] != ' ' by {
        assert(!is_special(v[i]));
    }
    lemma_scan_bare_run(v, rest, key, Seq::empty(), acc);
    assert(Seq::<char>::empty() + v =~= v);
    if v.len() > 0 {
        assert(!is_special(v[0]));
    }
    assert((v + rest).len() > 0 ==> (v + rest)[0] != '"');
    assert(scan_value(v + rest, key, acc) == scan_bare(v + rest, key, Seq::empty(), acc));
    assert(scan_bare(rest, key, v, acc) == scan_gap(rest, acc.push((key, v))));
    assert(spec_parse_line(bare) == scan_gap(rest, acc.push((key, v))));
    // The quoted value decodes to itself.
    assert forall|i: int| 0 <= i < v.len() implies v[i] != '"' && v[i] != '\\' by {
        assert(!is_special(v[i]));
    }
    lemma_escape_plain(v);
    let t = seq!['"'] + rest;
    assert(tq.drop_first().drop_first() =~= escape(v) + t);
    lemma_scan_escaped(v, t, key, Seq::empty(), acc);
    assert(t.drop_first() =~= rest);
    assert(scan_value(tq.drop_first(), key, acc) == scan_quoted(escape(v) + t, key, Seq::empty(), acc));
    assert(spec_parse_line(quoted) == scan_gap(rest, acc.push((key, v))));
}

/// Every key holds no `=` and no space.
pub open spec fn keys_valid(ps: Seq<PairView>) -> bool {
    forall|i: int| 0 <= i < ps.len() ==> is_valid_key(#[trigger] ps[i].0)
}

proof fn lemma_push_keys_valid(acc: Seq<PairView>, key: Seq<char>, value: Seq<char>)
    requires
        keys_valid(acc),
        is_valid_key(key),
    ensures
        keys_valid(acc.push((key, value))),
{
    assert forall|i: int| 0 <= i < acc.push((key, value)).len() implies is_valid_key(
        #[trigger] acc.push((key, value))[i].0,
    ) by {
        if i < acc.len() {
            assert(acc.push((key, value))[i] == acc[i]);
        }
    }
}

proof fn lemma_gap_keys(s: Seq<char>, acc: Seq<PairView>)
    requires
        keys_valid(acc),
    ensures
        scan_gap(s, acc) matches Ok(ps) ==> keys_valid(ps),
    decreases s.len(), 2int,
{
    if s.len() == 0 {
    } else if s[0] == ' ' {
        lemma_gap_keys(s.drop_first(), acc);
    } else {
        lemma_key_keys(s, Seq::empty(), acc);
    }
}

proof fn lemma_key_keys(s: Seq<char>, key: Seq<char>, acc: Seq<PairView>)
    requires
        keys_valid(acc),
        is_valid_key(key),
    ensures
        scan_key(s, key, acc) matches Ok(ps) ==> keys_valid(ps),
    decreases s.len(), 1int,
{
    if s.len() == 0 || s[0] == ' ' {
    } else if s[0] == '=' {
        lemma_value_keys(s.drop_first(), key, acc);
    } else {
        let key1 = key.push(s[0]);
        assert forall|i: int| 0 <= i < key1.len() implies key1[i] != '=' && key1[i] != ' ' by {
            if i < key.len() {
                assert(key1[i] == key[i]);
            }
        }
        lemma_key_keys(s.drop_first(), key1, acc);
    }
}

proof fn lemma_value_keys(s: Seq<char>, key: Seq<char>, acc: Seq<PairView>)
    requires
        keys_valid(acc),
        is_valid_key(key),
    ensures
        scan_value(s, key, acc) matches Ok(ps) ==> keys_valid(ps),
    decreases s.len(), 4int,
{
    if s.len() > 0 && s[0] == '"' {
        lemma_quoted_keys(s.drop_first(), key, Seq::empty(), acc);
    } else {
        lemma_bare_keys(s, key, Seq::empty(), acc);
    }
}

proof fn lemma_bare_keys(s: Seq<char>, key: Seq<char>, value: Seq<char>, acc: Seq<PairView>)
    requires
        keys_valid(acc),
        is_valid_key(key),
    ensures
        scan_bare(s, key, value, acc) matches Ok(ps) ==> keys_valid(ps),
    decreases s.len(), 3int,
{
    if s.len() == 0 || s[0] == ' ' {
        lemma_push_keys_valid(acc, key, value);
        lemma_gap_keys(s, acc.push((key, value)));
    } else {
        lemma_bare_keys(s.drop_first(), key, value.push(s[0]), acc);
    }
}

proof fn lemma_quoted_keys(s: Seq<char>, key: Seq<char>, value: Seq<char>, acc: Seq<PairView>)
    requires
        keys_valid(acc),
        is_valid_key(key),
    ensures
        scan_quoted(s, key, value, acc) matches Ok(ps) ==> keys_valid(ps),
    decreases s.len(), 0int,
{
    if s.len() == 0 {
    } else if s[0] == '"' {
        lemma_push_keys_valid(acc, key, value);
        lemma_gap_keys(s.drop_first(), acc.push((key, value)));
    } else if s[0] == '\\' {
        if s.len() >= 2 && (s[1] == '"' || s[1] == '\\') {
            lemma_quoted_keys(s.skip(2), key, value.push(s[1]), acc);
        }
    } else {
        lemma_quoted_keys(s.drop_first(), key, value.push(s[0]), acc);
    }
}

/// Every key that a line decodes to holds no `=` and no space, so it can be
/// written back.
pub proof fn law_read_keys_are_writable(line: Seq<char>)
    ensures
        spec_parse_line(line) matches Ok(ps) ==> keys_valid(ps),
{
    lemma_gap_keys(line, Seq::empty());
}

/// Writing out the pairs that a line decodes to gives a line that decodes to
/// the same pairs: the written line is a normal form of the input.
pub proof fn law_rewritten_line_reads_back(line: Seq<char>)
    ensures
        spec_parse_line(line) matches Ok(ps) ==> spec_parse_line(render_line(ps)) == Ok::<
            Seq<PairView>,
            crate::error::Error,
        >(ps),
{
    law_read_keys_are_writable(line);
    if let Ok(ps) = spec_parse_line(line) {
        law_written_line_reads_back(ps);
    }
}

/// The token written for a bool reads back as the same bool.
pub proof fn law_bool_reads_back(b: bool)
    ensures
        spec_read_bool(bool_token(b)) == Some(b),
{
    reveal_strlit("true");
    reveal_strlit("false");
    assert("true"@.len() != "false"@.len());
}

/// Between pairs (at the start of a line or after a value) a space is
/// skipped: it does not change what the rest of the line decodes to.
pub proof fn law_spaces_between_pairs_are_ignored(rest: Seq<char>, acc: Seq<PairView>)
    ensures
        scan_gap(seq![' '] + rest, acc) == scan_gap(rest, acc),
        spec_parse_line(seq![' '] + rest) == spec_parse_line(rest),
{
    assert((seq![' '] + rest).drop_first() =~= rest);
}

/// Appending pairs one after another to an empty line gives their
/// `key=value` texts joined by single spaces: one space between consecutive
/// pairs, none before the first or after the last.
pub proof fn law_appended_pairs_are_space_joined(pairs: Seq<PairView>)
    ensures
        appended(pairs) == space_joined(pairs.map_values(|p: PairView| pair_text(p))),
    decreases pairs.len(),
{
    let pieces = pairs.map_values(|p: PairView| pair_text(p));
    if pairs.len() > 0 {
        let rest = pairs.drop_last();
        law_appended_pairs_are_space_joined(rest);
        let rest_pieces = rest.map_values(|p: PairView| pair_text(p));
        assert(pieces.drop_last() =~= rest_pieces);
        assert(pieces.last() == pair_text(pairs.last()));
        if rest.len() == 0 {
            assert(appended(pairs) =~= pair_text(pairs.last()));
        } else {
            assert(pieces.len() > 1);
            assert(appended(rest).len() > 0);
            assert(appended(pairs) =~= appended(rest) + seq![' '] + pair_text(pairs.last()));
        }
    }
}

/// A written line is canonical: decoding it and writing the decoded pairs
/// again gives the same line, character for character.
pub proof fn law_written_line_is_canonical(pairs: Seq<PairView>)
    requires
        keys_valid(pairs),
    ensures
        spec_parse_line(render_line(pairs)) matches Ok(decoded) && render_line(decoded)
            == render_line(pairs),
{
    law_written_line_reads_back(pairs);
}

/// A written integer token is canonical: reading it and writing the value
/// again gives the same token.
pub proof fn law_integer_token_is_canonical(v: int)
    ensures
        spec_parse_int(decimal_int(v), true) matches Some(read) && decimal_int(read)
            == decimal_int(v),
        v >= 0 ==> (spec_parse_int(decimal_int(v), false) matches Some(read) && decimal_int(read)
            == decimal_int(v)),
{
    law_integer_reads_back(v);
}

/// A written bool token is canonical: reading it and writing the bool again
/// gives the same token.
pub proof fn law_bool_token_is_canonical(b: bool)
    ensures
        spec_read_bool(bool_token(b)) matches Some(read) && bool_token(read) == bool_token(b),
{
    law_bool_reads_back(b);
}

/// Reading a bool accepts exactly two tokens: `true`, read as `true`, and
/// `false`, read as `false`; every other token is refused.
pub proof fn law_bool_tokens_are_true_and_false(t: Seq<char>)
    ensures
        (spec_read_bool(t) == Some(true)) <==> t == "true"@,
        (spec_read_bool(t) == Some(false)) <==> t == "false"@,
        (spec_read_bool(t) is None) <==> (t != "true"@ && t != "false"@),
{
    reveal_strlit("true");
    reveal_strlit("false");
    assert("true"@.len() != "false"@.len());
}

/// The token written for `true` is `true` and the one for `false` is
/// `false`.
pub proof fn law_bool_token_is_true_or_false(b: bool)
    ensures
        (bool_token(b) == "true"@) <==> b,
        (bool_token(b) == "false"@) <==> !b,
{
    reveal_strlit("true");
    reveal_strlit("false");
    assert("true"@.len() != "false"@.len());
}

/// Leading zeros do not change the value of digits.
pub proof fn law_leading_zero_keeps_value(s: Seq<char>)
    ensures
        digits_value(seq!['0'] + s) == digits_value(s),
    decreases s.len(),
{
    if s.len() == 0 {
        assert((seq!['0'] + s).drop_last() =~= Seq::<char>::empty());
        assert(digits_value(Seq::<char>::empty()) == 0);
        assert(digit_value('0') == 0);
        assert(digits_value(s) == 0);
    } else {
        law_leading_zero_keeps_value(s.drop_last());
        assert((seq!['0'] + s).drop_last() =~= seq!['0'] + s.drop_last());
        assert((seq!['0'] + s).last() == s.last());
    }
}

/// Any token of one or more ASCII digits is read as the base-ten value of
/// its digits, leading zeros included; a `+` before the digits changes
/// nothing, and a `-` before them negates the value for a signed type.
pub proof fn law_digit_tokens_read_as_their_value(s: Seq<char>, signed: bool)
    requires
        s.len() > 0,
        forall|i: int| 0 <= i < s.len() ==> '0' <= #[trigger] s[i] && s[i] <= '9',
    ensures
        spec_parse_int(s, signed) == Some(digits_value(s)),
        spec_parse_int(seq!['+'] + s, signed) == Some(digits_value(s)),
        signed ==> spec_parse_int(seq!['-'] + s, signed) == Some(-digits_value(s)),
        digits_value(s) >= 0,
{
    assert(all_digits(s)) by {
        assert forall|i: int| 0 <= i < s.len() implies #[trigger] is_digit(s[i]) by {
            assert('0' <= s[i] && s[i] <= '9');
        }
    }
    assert(s[0] != '+' && s[0] != '-') by {
        assert('0' <= s[0] && s[0] <= '9');
    }
    assert((seq!['+'] + s).drop_first() =~= s);
    assert((seq!['-'] + s).drop_first() =~= s);
    crate::number::lemma_digits_value_nonneg(s);
}

/// A value is written verbatim when it is non-empty and holds no space, no
/// `"` and no `\`; otherwise it is written between quotes, escaped.
pub proof fn law_quote_only_when_needed(s: Seq<char>)
    ensures
        (s.len() > 0 && forall|i: int| 0 <= i < s.len() ==> #[trigger] s[i] != ' ' && s[i]
            != '"' && s[i] != '\\') ==> spec_quote(s) == s,
        (s.len() == 0 || exists|i: int| 0 <= i < s.len() && (#[trigger] s[i] == ' ' || s[i] == '"'
            || s[i] == '\\')) ==> spec_quote(s) == seq!['"'] + escape(s) + seq!['"'],
{
    if s.len() > 0 && forall|i: int| 0 <= i < s.len() ==> #[trigger] s[i] != ' ' && s[i] != '"'
        && s[i] != '\\' {
        assert(!needs_quotes(s));
    }
    if s.len() > 0 && exists|i: int| 0 <= i < s.len() && (#[trigger] s[i] == ' ' || s[i] == '"'
        || s[i] == '\\') {
        let i = choose|i: int| 0 <= i < s.len() && (#[trigger] s[i] == ' ' || s[i] == '"' || s[i]
            == '\\');
        assert(is_special(s[i]));
    }
}

/// Escaping puts a `\` before each `"` and `\` and keeps every other
/// character: a value with neither is its own escaped form, and escaping
/// one more character appends that character's escape.
pub proof fn law_escape_marks_quotes_and_backslashes(s: Seq<char>, c: char)
    ensures
        (forall|i: int| 0 <= i < s.len() ==> #[trigger] s[i] != '"' && s[i] != '\\') ==> escape(s)
            == s,
        escape(s.push(c)) == escape(s) + (if c == '"' || c == '\\' {
            seq!['\\', c]
        } else {
            seq![c]
        }),
{
    if forall|i: int| 0 <= i < s.len() ==> #[trigger] s[i] != '"' && s[i] != '\\' {
        lemma_escape_plain(s);
    }
    assert(s.push(c).drop_last() =~= s);
}

} // verus!
