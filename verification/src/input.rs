//! Reading a corner from a line of text.

use vstd::prelude::*;

verus! {

/// Why a line of text gives no corner.
#[derive(Clone, Copy, Debug, PartialEq, Eq, Structural)]
pub enum CornerError {
    /// The line, without the blanks around it, is not a whole number that
    /// fits in 64 bits with a sign.
    NotANumber,
    /// The line holds a number below zero.
    Negative,
}

/// `c` is white space, as Unicode defines it.
pub open spec fn is_space(c: char) -> bool {
    ||| '\u{9}' <= c <= '\u{D}'
    ||| c == ' '
    ||| c == '\u{85}'
    ||| c == '\u{A0}'
    ||| c == '\u{1680}'
    ||| '\u{2000}' <= c <= '\u{200A}'
    ||| c == '\u{2028}'
    ||| c == '\u{2029}'
    ||| c == '\u{202F}'
    ||| c == '\u{205F}'
    ||| c == '\u{3000}'
}

/// `c` is one of the ten digits.
pub open spec fn is_digit(c: char) -> bool {
    '0' <= c <= '9'
}

/// No character of `s` is anything but a digit.
pub open spec fn all_digits(s: Seq<char>) -> bool {
    forall|i: int| 0 <= i < s.len() ==> is_digit(#[trigger] s[i])
}

/// The number that the digits of `s` write in decimal.
pub open spec fn digits_value(s: Seq<char>) -> nat
    decreases s.len(),
{
    if s.len() == 0 {
        0
    } else {
        (10 * digits_value(s.drop_last()) + (s.last() as int - '0' as int)) as nat
    }
}

/// `s` without the white space before its first and after its last
/// character that is none.
pub open spec fn trimmed(s: Seq<char>) -> Seq<char>
    decreases s.len(),
{
    if s.len() == 0 {
        s
    } else if is_space(s.first()) {
        trimmed(s.drop_first())
    } else if is_space(s.last()) {
        trimmed(s.drop_last())
    } else {
        s
    }
}

/// The whole number that `s` writes: digits, at least one, with at most one
/// sign, `+` or `-`, before them. Anything else writes no number.
pub open spec fn signed_decimal(s: Seq<char>) -> Option<int> {
    let signed = s.len() > 0 && (s[0] == '+' || s[0] == '-');
    let digits = if signed {
        s.skip(1)
    } else {
        s
    };
    if digits.len() == 0 || !all_digits(digits) {
        None
    } else if signed && s[0] == '-' {
        Some(-(digits_value(digits) as int))
    } else {
        Some(digits_value(digits) as int)
    }
}

/// The corner that a line of text gives, or why it gives none.
pub open spec fn corner_of(line: Seq<char>) -> Result<i64, CornerError> {
    match signed_decimal(trimmed(line)) {
        None => Err(CornerError::NotANumber),
        Some(n) => if n < i64::MIN || n > i64::MAX {
            Err(CornerError::NotANumber)
        } else if n < 0 {
            Err(CornerError::Negative)
        } else {
            Ok(n as i64)
        },
    }
}

/// The largest magnitude that a number of 64 bits with a sign can have:
/// that of the least of them.
const MAX_MAGNITUDE: u64 = 0x8000_0000_0000_0000;

/// Digits that are added to a number do not make it smaller.
proof fn lemma_digits_value_grows(s: Seq<char>, k: int)
    requires
        all_digits(s),
        0 <= k <= s.len(),
    ensures
        digits_value(s.take(k)) <= digits_value(s),
    decreases s.len() - k,
{
    if k == s.len() {
        assert(s.take(k) == s);
    } else {
        lemma_digits_value_grows(s.drop_last(), k);
        assert(s.drop_last().take(k) == s.take(k));
    }
}

/// Whether `c` is white space.
fn space(c: char) -> (yes: bool)
    ensures
        yes == is_space(c),
{
    ('\u{9}' <= c && c <= '\u{D}') || c == ' ' || c == '\u{85}' || c == '\u{A0}' || c == '\u{1680}'
        || ('\u{2000}' <= c && c <= '\u{200A}') || c == '\u{2028}' || c == '\u{2029}' || c
        == '\u{202F}' || c == '\u{205F}' || c == '\u{3000}'
}

/// The characters of `line`, one by one.
fn chars_of(line: &str) -> (chars: Vec<char>)
    ensures
        chars@ == line@,
{
    let mut chars: Vec<char> = Vec::new();
    for c in it: line.chars()
        invariant
            chars@ == it.seq().take(it.index() as int),
            it.seq() == line@,
    {
        chars.push(c);
    }
    chars
}

/// Where `chars`, without the white space around it, starts and ends.
fn trim(chars: &Vec<char>) -> (ends: (usize, usize))
    ensures
        ends.0 <= ends.1 <= chars.len(),
        chars@.subrange(ends.0 as int, ends.1 as int) == trimmed(chars@),
{
    let mut start: usize = 0;
    proof {
        assert(chars@.subrange(0, chars.len() as int) == chars@);
    }
    while start < chars.len() && space(chars[start])
        invariant
            start <= chars.len(),
            trimmed(chars@) == trimmed(chars@.subrange(start as int, chars.len() as int)),
        decreases chars.len() - start,
    {
        proof {
            let rest = chars@.subrange(start as int, chars.len() as int);
            assert(rest.drop_first() == chars@.subrange(start + 1, chars.len() as int));
        }
        start += 1;
    }
    let mut end: usize = chars.len();
    while end > start && space(chars[end - 1])
        invariant
            start <= end <= chars.len(),
            start < chars.len() ==> !is_space(chars[start as int]),
            trimmed(chars@) == trimmed(chars@.subrange(start as int, end as int)),
        decreases end,
    {
        proof {
            let rest = chars@.subrange(start as int, end as int);
            assert(rest.drop_last() == chars@.subrange(start as int, end - 1));
        }
        end -= 1;
    }
    (start, end)
}

/// The number that `chars` writes from `from` up to `to`, if there is
/// nothing but digits there and the number is no more than `MAX_MAGNITUDE`.
fn magnitude(chars: &Vec<char>, from: usize, to: usize) -> (value: Option<u64>)
    requires
        from <= to <= chars.len(),
    ensures
        value is Some <==> all_digits(chars@.subrange(from as int, to as int)) && digits_value(
            chars@.subrange(from as int, to as int),
        ) <= MAX_MAGNITUDE,
        value is Some ==> value->0 == digits_value(chars@.subrange(from as int, to as int)),
{
    let ghost digits = chars@.subrange(from as int, to as int);
    let mut value: u64 = 0;
    let mut i: usize = from;
    while i < to
        invariant
            from <= i <= to <= chars.len(),
            digits == chars@.subrange(from as int, to as int),
            all_digits(digits.take(i - from)),
            value == digits_value(digits.take(i - from)),
            value <= MAX_MAGNITUDE,
        decreases to - i,
    {
        let c = chars[i];
        if !('0' <= c && c <= '9') {
            proof {
                assert(!is_digit(digits[i - from]));
            }
            return None;
        }
        let digit = (c as u32 - '0' as u32) as u64;
        proof {
            let upto = digits.take(i - from + 1);
            assert(upto.drop_last() == digits.take(i - from));
        }
        if value > (MAX_MAGNITUDE - digit) / 10 {
            proof {
                if all_digits(digits) {
                    lemma_digits_value_grows(digits, i - from + 1);
                }
            }
            return None;
        }
        value = value * 10 + digit;
        i += 1;
    }
    proof {
        assert(digits.take(to - from) == digits);
    }
    Some(value)
}

/// The corner that a line of text gives: the whole number that the line
/// writes, once the white space around it is set aside, if it is not below
/// zero.
pub fn parse_corner(line: &str) -> (corner: Result<i64, CornerError>)
    ensures
        corner == corner_of(line@),
{
    let chars = chars_of(line);
    let (start, end) = trim(&chars);
    let ghost text = trimmed(line@);
    if start == end {
        return Err(CornerError::NotANumber);
    }
    let negative = chars[start] == '-';
    let first = if negative || chars[start] == '+' {
        start + 1
    } else {
        start
    };
    proof {
        let digits = chars@.subrange(first as int, end as int);
        if first > start {
            assert(digits == text.skip(1));
        }
    }
    if first == end {
        return Err(CornerError::NotANumber);
    }
    match magnitude(&chars, first, end) {
        None => Err(CornerError::NotANumber),
        Some(value) => {
            if negative {
                if value == 0 {
                    Ok(0)
                } else {
                    Err(CornerError::Negative)
                }
            } else if value == MAX_MAGNITUDE {
                Err(CornerError::NotANumber)
            } else {
                Ok(value as i64)
            }
        },
    }
}

} // verus!
