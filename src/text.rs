//! Character-level helpers: decimal rendering and parsing, comparison,
//! and splitting at a separator.

use vstd::prelude::*;

verus! {

/// Relies on `String::push`: the character is appended at the end.
#[verifier::external_body]
pub(crate) fn push_char(s: &mut String, c: char)
    ensures
        final(s)@ == old(s)@.push(c),
{
    s.push(c);
}

/// The character of a decimal digit.
pub open spec fn digit_char(d: nat) -> char {
    if d == 0 { '0' }
    else if d == 1 { '1' }
    else if d == 2 { '2' }
    else if d == 3 { '3' }
    else if d == 4 { '4' }
    else if d == 5 { '5' }
    else if d == 6 { '6' }
    else if d == 7 { '7' }
    else if d == 8 { '8' }
    else { '9' }
}

/// The value of a decimal digit character.
pub open spec fn digit_value(c: char) -> int {
    c as int - '0' as int
}

pub open spec fn is_digit(c: char) -> bool {
    '0' <= c && c <= '9'
}

/// Decimal digits of a natural number, without leading zeros.
pub open spec fn decimal(n: nat) -> Seq<char>
    decreases n,
{
    if n < 10 {
        seq![digit_char(n)]
    } else {
        decimal(n / 10).push(digit_char(n % 10))
    }
}

/// Decimal rendering of an integer, with a leading minus when negative.
pub open spec fn signed_decimal(i: int) -> Seq<char> {
    if i < 0 {
        seq!['-'] + decimal((-i) as nat)
    } else {
        decimal(i as nat)
    }
}

fn digit_to_char(d: u64) -> (c: char)
    requires
        d < 10,
    ensures
        c == digit_char(d as nat),
{
    if d == 0 { '0' }
    else if d == 1 { '1' }
    else if d == 2 { '2' }
    else if d == 3 { '3' }
    else if d == 4 { '4' }
    else if d == 5 { '5' }
    else if d == 6 { '6' }
    else if d == 7 { '7' }
    else if d == 8 { '8' }
    else { '9' }
}

/// Appends the decimal digits of `n` to `s`.
pub fn append_decimal(s: &mut String, n: u64)
    ensures
        final(s)@ == old(s)@ + decimal(n as nat),
    decreases n,
{
    if n < 10 {
        push_char(s, digit_to_char(n));
        assert(final(s)@ =~= old(s)@ + decimal(n as nat));
    } else {
        append_decimal(s, n / 10);
        push_char(s, digit_to_char(n % 10));
        assert(final(s)@ =~= old(s)@ + decimal(n as nat));
    }
}

/// Appends the decimal rendering of `i` to `s`.
pub fn append_signed_decimal(s: &mut String, i: i64)
    ensures
        final(s)@ == old(s)@ + signed_decimal(i as int),
{
    if i < 0 {
        push_char(s, '-');
        let m: u64 = (0i128 - i as i128) as u64;
        append_decimal(s, m);
        assert(final(s)@ =~= old(s)@ + signed_decimal(i as int));
    } else {
        append_decimal(s, i as u64);
    }
}

/// Whether two strings hold the same characters.
pub fn same_text(s: &str, t: &str) -> (r: bool)
    ensures
        r == (s@ == t@),
{
    let n = s.unicode_len();
    if n != t.unicode_len() {
        return false;
    }
    let mut i: usize = 0;
    while i < n
        invariant
            n == s@.len(),
            n == t@.len(),
            i <= n,
            forall|j: int| 0 <= j < i ==> s@[j] == t@[j],
        decreases n - i,
    {
        if s.get_char(i) != t.get_char(i) {
            return false;
        }
        i = i + 1;
    }
    assert(s@ =~= t@);
    true
}


/// Why a text is not a decimal `i32`, as `str::parse::<i32>` tells it.
#[derive(Clone, Copy, Debug, PartialEq, Eq, Structural)]
pub enum IntErrorKind {
    Empty,
    InvalidDigit,
    PosOverflow,
    NegOverflow,
}

/// Reads `digits` left to right onto `acc`, as `str::parse::<i32>` does:
/// the first non-digit is an invalid digit, the first step past the range of
/// `i32` an overflow on the side of the sign.
pub open spec fn accumulate(digits: Seq<char>, acc: int, negative: bool) -> Result<int, IntErrorKind>
    decreases digits.len(),
{
    if digits.len() == 0 {
        Ok(acc)
    } else if !is_digit(digits[0]) {
        Err(IntErrorKind::InvalidDigit)
    } else {
        let v = if negative {
            acc * 10 - digit_value(digits[0])
        } else {
            acc * 10 + digit_value(digits[0])
        };
        if v > i32::MAX {
            Err(IntErrorKind::PosOverflow)
        } else if v < i32::MIN {
            Err(IntErrorKind::NegOverflow)
        } else {
            accumulate(digits.drop_first(), v, negative)
        }
    }
}

/// The decimal `i32` that `s` reads, with an optional leading `+` or `-`.
pub open spec fn parse_i32_spec(s: Seq<char>) -> Result<int, IntErrorKind> {
    if s.len() == 0 {
        Err(IntErrorKind::Empty)
    } else if (s[0] == '+' || s[0] == '-') && s.len() == 1 {
        Err(IntErrorKind::InvalidDigit)
    } else if s[0] == '+' {
        accumulate(s.drop_first(), 0, false)
    } else if s[0] == '-' {
        accumulate(s.drop_first(), 0, true)
    } else {
        accumulate(s, 0, false)
    }
}

/// Parses a decimal `i32` as `str::parse::<i32>` does.
pub fn parse_i32(s: &str) -> (r: Result<i32, IntErrorKind>)
    ensures
        match parse_i32_spec(s@) {
            Ok(v) => r is Ok && r->Ok_0 as int == v,
            Err(e) => r == Err::<i32, IntErrorKind>(e),
        },
{
    let n = s.unicode_len();
    if n == 0 {
        return Err(IntErrorKind::Empty);
    }
    let first = s.get_char(0);
    if (first == '+' || first == '-') && n == 1 {
        return Err(IntErrorKind::InvalidDigit);
    }
    let negative = first == '-';
    let start: usize = if first == '+' || first == '-' { 1 } else { 0 };
    let ghost digits = s@.subrange(start as int, n as int);
    assert(parse_i32_spec(s@) == accumulate(digits, 0, negative)) by {
        if start == 1 {
            assert(digits =~= s@.drop_first());
        } else {
            assert(digits =~= s@);
        }
    }
    let mut acc: i64 = 0;
    let mut i: usize = start;
    while i < n
        invariant
            n == s@.len(),
            start <= i <= n,
            i32::MIN <= acc <= i32::MAX,
            parse_i32_spec(s@) == accumulate(digits, 0, negative),
            accumulate(digits, 0, negative) == accumulate(s@.subrange(i as int, n as int), acc as int, negative),
        decreases n - i,
    {
        let c = s.get_char(i);
        proof {
            assert(s@.subrange(i + 1, n as int) =~= s@.subrange(i as int, n as int).drop_first());
            assert(s@.subrange(i as int, n as int)[0] == c);
        }
        if !('0' <= c && c <= '9') {
            assert(accumulate(s@.subrange(i as int, n as int), acc as int, negative) == Err::<int, IntErrorKind>(IntErrorKind::InvalidDigit));
            return Err(IntErrorKind::InvalidDigit);
        }
        let d: i64 = (c as u32 - '0' as u32) as i64;
        let v: i64 = if negative { acc * 10 - d } else { acc * 10 + d };
        assert(v == if negative { acc * 10 - digit_value(c) } else { acc * 10 + digit_value(c) });
        if v > i32::MAX as i64 {
            return Err(IntErrorKind::PosOverflow);
        }
        if v < i32::MIN as i64 {
            return Err(IntErrorKind::NegOverflow);
        }
        acc = v;
        i = i + 1;
    }
    assert(s@.subrange(n as int, n as int).len() == 0);
    Ok(acc as i32)
}

/// `sep` stands at `k` in `s` and nowhere else.
pub open spec fn only_sep_at(s: Seq<char>, sep: char, k: int) -> bool {
    0 <= k < s.len() && s[k] == sep && forall|j: int| 0 <= j < s.len() && j != k ==> s[j] != sep
}

/// Splits `s` around `sep` where it holds exactly one of it, that is where
/// splitting at every `sep` gives two parts.
pub fn split_in_two<'a>(s: &'a str, sep: char) -> (r: Option<(&'a str, &'a str)>)
    ensures
        match r {
            Some(p) => exists|k: int| only_sep_at(s@, sep, k) && p.0@ == s@.subrange(0, k)
                && p.1@ == s@.subrange(k + 1, s@.len() as int),
            None => forall|k: int| !only_sep_at(s@, sep, k),
        },
{
    let n = s.unicode_len();
    let mut count: usize = 0;
    let mut at: usize = 0;
    let mut i: usize = 0;
    while i < n
        invariant
            n == s@.len(),
            i <= n,
            count <= i,
            count == 0 ==> forall|j: int| 0 <= j < i ==> s@[j] != sep,
            count == 1 ==> at < i && s@[at as int] == sep
                && forall|j: int| 0 <= j < i && j != at ==> s@[j] != sep,
            count >= 2 ==> at < i && s@[at as int] == sep
                && exists|j: int| 0 <= j < i && j != at && s@[j] == sep,
        decreases n - i,
    {
        if s.get_char(i) == sep {
            if count == 0 {
                at = i;
                count = 1;
            } else if count == 1 {
                assert(s@[i as int] == sep);
                count = 2;
            }
        }
        i = i + 1;
    }
    if count == 1 {
        assert(only_sep_at(s@, sep, at as int));
        Some((s.substring_char(0, at), s.substring_char(at + 1, n)))
    } else {
        proof {
            if count >= 2 {
                assert forall|k: int| !only_sep_at(s@, sep, k) by {
                    let j0 = choose|j: int| 0 <= j < i && j != at && s@[j] == sep;
                    if k == at as int {
                        assert(s@[j0] == sep && j0 != k);
                    } else {
                        assert(s@[at as int] == sep);
                    }
                }
            }
        }
        None
    }
}

} // verus!
