use vstd::prelude::*;

use crate::text::push_char;

verus! {

/// The decimal digit character for `d` (0 to 9).
pub open spec fn digit_char(d: int) -> char {
    (d + 48) as char
}

/// The decimal digits of `n`, most significant first, without leading zeros.
pub open spec fn decimal(n: nat) -> Seq<char>
    decreases n,
{
    if n < 10 {
        seq![digit_char(n as int)]
    } else {
        decimal(n / 10).push(digit_char((n % 10) as int))
    }
}

/// How an integer is written: its decimal digits, after `-` when negative.
pub open spec fn decimal_int(v: int) -> Seq<char> {
    if v < 0 {
        seq!['-'] + decimal((-v) as nat)
    } else {
        decimal(v as nat)
    }
}

/// An ASCII decimal digit.
pub open spec fn is_digit(c: char) -> bool {
    '0' <= c && c <= '9'
}

/// The value of a digit character.
pub open spec fn digit_value(c: char) -> int {
    c as int - 48
}

/// Every character of `s` is a decimal digit.
pub open spec fn all_digits(s: Seq<char>) -> bool {
    forall|i: int| 0 <= i < s.len() ==> #[trigger] is_digit(s[i])
}

/// The number that the digits `s` denote in base ten.
pub open spec fn digits_value(s: Seq<char>) -> int
    decreases s.len(),
{
    if s.len() == 0 {
        0
    } else {
        digits_value(s.drop_last()) * 10 + digit_value(s.last())
    }
}

/// The integer a token denotes: an optional sign followed by one or more
/// decimal digits.  `+` is always accepted; `-` only when `signed`.  A sign
/// alone, an empty token or any other character gives `None`.
pub open spec fn spec_parse_int(s: Seq<char>, signed: bool) -> Option<int> {
    if s.len() == 0 {
        None
    } else if (s[0] == '+' || s[0] == '-') && s.len() == 1 {
        None
    } else if s[0] == '+' {
        if all_digits(s.drop_first()) {
            Some(digits_value(s.drop_first()))
        } else {
            None
        }
    } else if s[0] == '-' && signed {
        if all_digits(s.drop_first()) {
            Some(-digits_value(s.drop_first()))
        } else {
            None
        }
    } else if all_digits(s) {
        Some(digits_value(s))
    } else {
        None
    }
}

/// Appends the decimal digits of `n` to `out`.
fn push_decimal(out: &mut String, n: u128)
    ensures
        final(out)@ == old(out)@ + decimal(n as nat),
    decreases n,
{
    if n >= 10 {
        push_decimal(out, n / 10);
    }
    let d = (n % 10) as u8;
    push_char(out, (48u8 + d) as char);
    proof {
        assert(old(out)@ + decimal(n as nat) =~= old(out)@ + (if n >= 10 {
            decimal((n / 10) as nat)
        } else {
            Seq::empty()
        }) + seq![digit_char((n % 10) as int)]);
    }
}

/// The decimal form of an unsigned integer.
pub fn format_u128(n: u128) -> (s: String)
    ensures
        s@ == decimal(n as nat),
{
    let mut s = String::new();
    push_decimal(&mut s, n);
    assert(s@ =~= decimal(n as nat));
    s
}

/// The decimal form of a signed integer, with `-` when negative.
pub fn format_i128(v: i128) -> (s: String)
    ensures
        s@ == decimal_int(v as int),
{
    let mut s = String::new();
    if v < 0 {
        push_char(&mut s, '-');
        let m: u128 = if v == i128::MIN {
            170141183460469231731687303715884105728u128
        } else {
            (-v) as u128
        };
        push_decimal(&mut s, m);
    } else {
        push_decimal(&mut s, v as u128);
    }
    assert(s@ =~= decimal_int(v as int));
    s
}

/// Digits never denote a negative number.
pub proof fn lemma_digits_value_nonneg(s: Seq<char>)
    requires
        all_digits(s),
    ensures
        digits_value(s) >= 0,
    decreases s.len(),
{
    if s.len() > 0 {
        assert(is_digit(s[s.len() - 1]));
        assert(all_digits(s.drop_last())) by {
            assert forall|i: int| 0 <= i < s.drop_last().len() implies #[trigger] is_digit(
                s.drop_last()[i],
            ) by {
                assert(is_digit(s[i]));
            }
        }
        lemma_digits_value_nonneg(s.drop_last());
    }
}

/// More digits never denote a smaller number.
proof fn lemma_digits_value_prefix(s: Seq<char>, k: int)
    requires
        all_digits(s),
        0 <= k <= s.len(),
    ensures
        digits_value(s.take(k)) <= digits_value(s),
    decreases s.len(),
{
    if k < s.len() {
        let s1 = s.drop_last();
        assert(all_digits(s1)) by {
            assert forall|i: int| 0 <= i < s1.len() implies #[trigger] is_digit(s1[i]) by {
                assert(is_digit(s[i]));
            }
        }
        lemma_digits_value_prefix(s1, k);
        assert(s1.take(k) =~= s.take(k));
        lemma_digits_value_nonneg(s1);
        assert(is_digit(s[s.len() - 1]));
    } else {
        assert(s.take(k) =~= s);
    }
}

/// Splits an integer token into its sign and magnitude.
///
/// `Some((negative, magnitude))` when the token denotes an integer whose
/// magnitude fits in `u128`; `None` when it denotes no integer or one whose
/// magnitude exceeds `u128::MAX`.
pub fn parse_int_parts(cs: &Vec<char>, signed: bool) -> (r: Option<(bool, u128)>)
    ensures
        r matches Some((neg, m)) ==> {
            &&& neg ==> signed
            &&& spec_parse_int(cs@, signed) == Some(if neg { -(m as int) } else { m as int })
        },
        r is None ==> (spec_parse_int(cs@, signed) matches Some(v) ==> (v > u128::MAX || v
            < -u128::MAX)),
{
    let n = cs.len();
    if n == 0 {
        return None;
    }
    if (cs[0] == '+' || cs[0] == '-') && n == 1 {
        return None;
    }
    let mut neg = false;
    let mut start: usize = 0;
    if cs[0] == '+' {
        start = 1;
    } else if cs[0] == '-' && signed {
        neg = true;
        start = 1;
    }
    let ghost digits = cs@.skip(start as int);
    proof {
        assert(start == 1 ==> digits =~= cs@.drop_first());
        assert(start == 0 ==> digits =~= cs@);
        assert(spec_parse_int(cs@, signed) == (if all_digits(digits) {
            Some(if neg { -digits_value(digits) } else { digits_value(digits) })
        } else {
            None::<int>
        }));
    }
    let mut i: usize = start;
    while i < n
        invariant
            n == cs.len(),
            start <= i <= n,
            digits == cs@.skip(start as int),
            spec_parse_int(cs@, signed) == (if all_digits(digits) {
                Some(if neg { -digits_value(digits) } else { digits_value(digits) })
            } else {
                None::<int>
            }),
            neg ==> signed,
            forall|j: int| start <= j < i ==> #[trigger] is_digit(cs@[j]),
        decreases n - i,
    {
        if !('0' <= cs[i] && cs[i] <= '9') {
            proof {
                assert(!is_digit(digits[i - start]));
            }
            return None;
        }
        i = i + 1;
    }
    proof {
        assert forall|j: int| 0 <= j < digits.len() implies #[trigger] is_digit(digits[j]) by {
            assert(is_digit(cs@[j + start]));
        }
    }
    let mut acc: u128 = 0;
    let mut i: usize = start;
    proof {
        assert(digits.take(0) =~= Seq::<char>::empty());
    }
    while i < n
        invariant
            n == cs.len(),
            start <= i <= n,
            digits == cs@.skip(start as int),
            spec_parse_int(cs@, signed) == (if all_digits(digits) {
                Some(if neg { -digits_value(digits) } else { digits_value(digits) })
            } else {
                None::<int>
            }),
            neg ==> signed,
            all_digits(digits),
            acc == digits_value(digits.take(i - start)),
        decreases n - i,
    {
        let ghost k = i - start;
        proof {
            assert(digits.take(k + 1).drop_last() =~= digits.take(k));
            assert(digits[k] == cs@[i as int]);
            assert(is_digit(digits[k]));
        }
        let d = ((cs[i] as u32) - 48) as u128;
        match acc.checked_mul(10) {
            None => {
                proof {
                    lemma_digits_value_prefix(digits, k + 1);
                    assert(digits_value(digits.take(k + 1)) == acc * 10 + digit_value(digits[k]));
                    assert(digits_value(digits) > u128::MAX);
                }
                return None;
            },
            Some(a) => match a.checked_add(d) {
                None => {
                    proof {
                        lemma_digits_value_prefix(digits, k + 1);
                        assert(digits_value(digits.take(k + 1)) == acc * 10 + digit_value(digits[k]));
                        assert(digits_value(digits) > u128::MAX);
                    }
                    return None;
                },
                Some(b) => {
                    acc = b;
                },
            },
        }
        i = i + 1;
    }
    proof {
        assert(digits.take(n - start) =~= digits);
    }
    Some((neg, acc))
}

/// Turns a sign and magnitude into an `i128`, or `None` when the value does
/// not fit.
pub fn signed_value(neg: bool, m: u128) -> (r: Option<i128>)
    ensures
        r matches Some(v) ==> v as int == (if neg { -(m as int) } else { m as int }),
        r is None ==> !(i128::MIN <= (if neg { -(m as int) } else { m as int }) <= i128::MAX),
{
    if neg {
        if m == 170141183460469231731687303715884105728u128 {
            Some(i128::MIN)
        } else if m < 170141183460469231731687303715884105728u128 {
            Some(-(m as i128))
        } else {
            None
        }
    } else if m <= 170141183460469231731687303715884105727u128 {
        Some(m as i128)
    } else {
        None
    }
}

} // verus!
