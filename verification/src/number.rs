//! Numerals: which texts denote an integer, which a decimal fraction.

use crate::error::{unexpected, Expected, Found, ParseError};
use crate::text::{chars_of, is_digit, lemma_run_len_is, run_end, run_len, CharClass};
use crate::token::TokenKind;
use vstd::prelude::*;

verus! {

/// How a numeral is to be read.
#[derive(Clone, Copy, Debug, PartialEq, Eq, Structural)]
pub enum Number {
    /// A whole number that fits in 64 bits, with its value.
    Integer(i64),
    /// A decimal fraction, or a whole number too large for 64 bits.
    Float,
}

pub open spec fn digit_value(c: char) -> int {
    c as int - '0' as int
}

/// The number a string of digits denotes in base ten.
pub open spec fn decimal_value(digits: Seq<char>) -> int
    decreases digits.len(),
{
    if digits.len() == 0 {
        0
    } else {
        10 * decimal_value(digits.drop_last()) + digit_value(digits.last())
    }
}

pub open spec fn all_digits(s: Seq<char>) -> bool {
    forall|i: int| 0 <= i < s.len() ==> is_digit(#[trigger] s[i])
}

/// 1 if a sign stands at `at`, else 0.
pub open spec fn sign_len(s: Seq<char>, at: int) -> int {
    if 0 <= at < s.len() && (s[at] == '+' || s[at] == '-') {
        1
    } else {
        0
    }
}

/// An optional sign followed by one or more digits, and nothing else: the
/// texts that the standard library reads as an integer, range aside.
pub open spec fn is_integer_text(s: Seq<char>) -> bool {
    s.len() > sign_len(s, 0) && all_digits(s.skip(sign_len(s, 0)))
}

/// The number an integer text denotes.
pub open spec fn integer_text_value(s: Seq<char>) -> int {
    let magnitude = decimal_value(s.skip(sign_len(s, 0)));
    if s.len() > 0 && s[0] == '-' {
        -magnitude
    } else {
        magnitude
    }
}

/// The 64-bit integer a text denotes, if it denotes one.
pub open spec fn integer_of(s: Seq<char>) -> Option<i64> {
    if is_integer_text(s) && i64::MIN <= integer_text_value(s) <= i64::MAX {
        Some(integer_text_value(s) as i64)
    } else {
        None
    }
}

/// Whether `c` is the small letter `letter` or its capital.
pub open spec fn is_letter_of(c: char, letter: char) -> bool {
    c == letter || ('A' <= c && c <= 'Z' && c as int + 32 == letter as int)
}

/// Whether `s` from `at` to its end spells `word`, letter case aside.
pub open spec fn spells(s: Seq<char>, at: int, word: Seq<char>) -> bool {
    &&& 0 <= at
    &&& s.len() == at + word.len()
    &&& forall|i: int| 0 <= i < word.len() ==> is_letter_of(s[at + i], #[trigger] word[i])
}

/// Whether `s` from `at` to its end names infinity or not-a-number.
pub open spec fn is_special(s: Seq<char>, at: int) -> bool {
    ||| spells(s, at, seq!['i', 'n', 'f'])
    ||| spells(s, at, seq!['i', 'n', 'f', 'i', 'n', 'i', 't', 'y'])
    ||| spells(s, at, seq!['n', 'a', 'n'])
}

/// Whether `s` from `at` to its end is an exponent: `e` or `E`, an optional
/// sign, one or more digits.
pub open spec fn is_exponent(s: Seq<char>, at: int) -> bool {
    &&& 0 <= at < s.len()
    &&& (s[at] == 'e' || s[at] == 'E')
    &&& {
        let digits_at = at + 1 + sign_len(s, at + 1);
        let digits = run_len(s, digits_at, CharClass::Digit);
        digits > 0 && digits_at + digits == s.len()
    }
}

/// Whether `s` from `at` to its end is a decimal number: digits with at most
/// one point among them, at least one digit in all, then an optional exponent.
pub open spec fn is_decimal(s: Seq<char>, at: int) -> bool {
    let whole = run_len(s, at, CharClass::Digit);
    let point_at = at + whole;
    let has_point = 0 <= point_at < s.len() && s[point_at] == '.';
    let fraction = if has_point {
        run_len(s, point_at + 1, CharClass::Digit)
    } else {
        0
    };
    let rest = if has_point {
        point_at + 1 + fraction
    } else {
        point_at
    };
    &&& 0 <= at
    &&& whole + fraction > 0
    &&& (rest == s.len() || is_exponent(s, rest))
}

/// Whether a text can be read as a 64-bit floating-point number: an optional
/// sign, then a decimal number or a name of infinity or not-a-number. These
/// are the texts that the standard library reads as such a number.
pub open spec fn is_float_text(s: Seq<char>) -> bool {
    is_special(s, sign_len(s, 0)) || is_decimal(s, sign_len(s, 0))
}

/// How a numeral text is read: as an integer if it denotes one that fits in
/// 64 bits, else as a float if it can be read as one, else not at all.
pub open spec fn classify(s: Seq<char>) -> Option<Number> {
    match integer_of(s) {
        Some(value) => Some(Number::Integer(value)),
        None => if is_float_text(s) {
            Some(Number::Float)
        } else {
            None
        },
    }
}

/// The error for a numeral that can be read neither way.
pub open spec fn bad_numeral() -> ParseError {
    unexpected(Expected::Numeral, TokenKind::Number)
}

pub proof fn lemma_decimal_value_bounds(digits: Seq<char>)
    requires
        all_digits(digits),
    ensures
        0 <= decimal_value(digits),
    decreases digits.len(),
{
    if digits.len() > 0 {
        assert(is_digit(digits[digits.len() - 1]));
        lemma_decimal_value_bounds(digits.drop_last());
    }
}

/// Reading more digits never makes the number smaller.
pub proof fn lemma_decimal_value_grows(digits: Seq<char>, n: int)
    requires
        all_digits(digits),
        0 <= n <= digits.len(),
    ensures
        0 <= decimal_value(digits.take(n)) <= decimal_value(digits),
    decreases digits.len() - n,
{
    if n == digits.len() {
        assert(digits.take(n) =~= digits);
        lemma_decimal_value_bounds(digits);
    } else {
        lemma_decimal_value_grows(digits, n + 1);
        let longer = digits.take(n + 1);
        assert(longer.drop_last() =~= digits.take(n));
        assert(is_digit(digits[n]));
        assert(longer.last() == digits[n]);
        lemma_decimal_value_bounds(digits.take(n));
    }
}

fn digit_of(c: char) -> (d: i64)
    requires
        is_digit(c),
    ensures
        d == digit_value(c),
        0 <= d <= 9,
{
    (c as u32 - '0' as u32) as i64
}

/// Reads an optional sign and digits as a 64-bit integer.
pub fn integer_from(chars: &Vec<char>) -> (value: Option<i64>)
    ensures
        value == integer_of(chars@),
{
    let n: usize = chars.len();
    if n == 0 {
        return None;
    }
    let negative: bool = chars[0] == '-';
    let start: usize = if chars[0] == '+' || chars[0] == '-' {
        1
    } else {
        0
    };
    if start == n {
        return None;
    }
    let ghost digits = chars@.skip(start as int);
    // The magnitude is gathered below zero, where one more value fits.
    let mut below: i64 = 0;
    let mut i: usize = start;
    while i < n
        invariant
            start <= i <= n,
            n == chars.len(),
            start == sign_len(chars@, 0),
            digits == chars@.skip(start as int),
            all_digits(digits.take(i - start)),
            below == -decimal_value(digits.take(i - start)),
            below <= 0,
        decreases n - i,
    {
        let c: char = chars[i];
        if !('0' <= c && c <= '9') {
            assert(!is_digit(digits[i - start]));
            return None;
        }
        let ghost longer = digits.take(i - start + 1);
        proof {
            assert(longer.drop_last() =~= digits.take(i - start));
            assert(longer.last() == c);
            assert forall|j: int| 0 <= j < longer.len() implies is_digit(#[trigger] longer[j]) by {
                if j < i - start {
                    assert(longer[j] == digits.take(i - start)[j]);
                }
            }
        }
        let d: i64 = digit_of(c);
        let next: Option<i64> = match below.checked_mul(10) {
            Some(tenfold) => tenfold.checked_sub(d),
            None => None,
        };
        match next {
            Some(v) => {
                below = v;
            },
            None => {
                proof {
                    // Already too large, and the remaining characters cannot mend it.
                    assert(decimal_value(longer) == 10 * decimal_value(longer.drop_last())
                        + digit_value(longer.last()));
                    assert(10 * below - d < i64::MIN);
                    assert(decimal_value(longer) > i64::MAX + 1);
                    if all_digits(digits) {
                        lemma_decimal_value_grows(digits, i - start + 1);
                    }
                }
                return None;
            },
        }
        i += 1;
    }
    assert(digits.take(n - start) =~= digits);
    if negative {
        Some(below)
    } else if below == i64::MIN {
        None
    } else {
        Some(-below)
    }
}

fn spells_word(chars: &Vec<char>, at: usize, word: &Vec<char>) -> (b: bool)
    requires
        at <= chars.len(),
    ensures
        b == spells(chars@, at as int, word@),
{
    if chars.len() - at != word.len() {
        return false;
    }
    let mut i: usize = 0;
    while i < word.len()
        invariant
            i <= word.len(),
            at + word.len() == chars.len(),
            forall|j: int| 0 <= j < i ==> is_letter_of(chars@[at + j], #[trigger] word@[j]),
        decreases word.len() - i,
    {
        let c: char = chars[at + i];
        let w: char = word[i];
        let same: bool = c == w || ('A' <= c && c <= 'Z' && 'a' <= w && w <= 'z' && c as u32
            + 32 == w as u32);
        if !same {
            return false;
        }
        i += 1;
    }
    true
}

fn names_special(chars: &Vec<char>, at: usize) -> (b: bool)
    requires
        at <= chars.len(),
    ensures
        b == is_special(chars@, at as int),
{
    let inf: Vec<char> = vec!['i', 'n', 'f'];
    let infinity: Vec<char> = vec!['i', 'n', 'f', 'i', 'n', 'i', 't', 'y'];
    let nan: Vec<char> = vec!['n', 'a', 'n'];
    assert(inf@ =~= seq!['i', 'n', 'f']);
    assert(infinity@ =~= seq!['i', 'n', 'f', 'i', 'n', 'i', 't', 'y']);
    assert(nan@ =~= seq!['n', 'a', 'n']);
    spells_word(chars, at, &inf) || spells_word(chars, at, &infinity) || spells_word(
        chars,
        at,
        &nan,
    )
}

fn ends_in_exponent(chars: &Vec<char>, at: usize) -> (b: bool)
    requires
        at < chars.len(),
    ensures
        b == is_exponent(chars@, at as int),
{
    let n: usize = chars.len();
    if !(chars[at] == 'e' || chars[at] == 'E') {
        return false;
    }
    let mut digits_at: usize = at + 1;
    if digits_at < n && (chars[digits_at] == '+' || chars[digits_at] == '-') {
        digits_at += 1;
    }
    let end: usize = run_end(chars, digits_at, CharClass::Digit);
    end > digits_at && end == n
}

fn reads_as_decimal(chars: &Vec<char>, at: usize) -> (b: bool)
    requires
        at <= chars.len(),
    ensures
        b == is_decimal(chars@, at as int),
{
    let n: usize = chars.len();
    let point_at: usize = run_end(chars, at, CharClass::Digit);
    let mut digits: usize = point_at - at;
    let mut rest: usize = point_at;
    if point_at < n && chars[point_at] == '.' {
        let end: usize = run_end(chars, point_at + 1, CharClass::Digit);
        digits += end - (point_at + 1);
        rest = end;
    }
    if digits == 0 {
        return false;
    }
    rest == n || ends_in_exponent(chars, rest)
}

/// Whether the characters can be read as a 64-bit floating-point number.
pub fn reads_as_float(chars: &Vec<char>) -> (b: bool)
    ensures
        b == is_float_text(chars@),
{
    let start: usize = if chars.len() > 0 && (chars[0] == '+' || chars[0] == '-') {
        1
    } else {
        0
    };
    names_special(chars, start) || reads_as_decimal(chars, start)
}

/// Reads a numeral: an integer where the text denotes one that fits in 64
/// bits, a float where it can be read as one, an error otherwise.
pub fn parse_number(input: &str) -> (r: Result<Number, ParseError>)
    ensures
        r == match classify(input@) {
            Some(number) => Ok::<Number, ParseError>(number),
            None => Err(bad_numeral()),
        },
        r is Err <==> integer_of(input@) is None && !is_float_text(input@),
{
    let chars = chars_of(input);
    match integer_from(&chars) {
        Some(value) => Ok(Number::Integer(value)),
        None => if reads_as_float(&chars) {
            Ok(Number::Float)
        } else {
            Err(ParseError { expected: Expected::Numeral, found: Found::Token(TokenKind::Number) })
        },
    }
}

/// One or more digits denote an integer, as long as the number fits in 64 bits.
pub proof fn lemma_digits_are_integer(s: Seq<char>)
    requires
        s.len() > 0,
        all_digits(s),
        decimal_value(s) <= i64::MAX,
    ensures
        classify(s) == Some(Number::Integer(decimal_value(s) as i64)),
{
    assert(is_digit(s[0]));
    assert(s.skip(0) =~= s);
    lemma_decimal_value_bounds(s);
}

/// Digits that denote a number too large for 64 bits are read as a float.
pub proof fn lemma_large_digits_are_float(s: Seq<char>)
    requires
        s.len() > 0,
        all_digits(s),
        decimal_value(s) > i64::MAX,
    ensures
        classify(s) == Some(Number::Float),
{
    assert(is_digit(s[0]));
    assert(s.skip(0) =~= s);
    lemma_run_len_is(s, 0, CharClass::Digit, s.len());
}

/// Digits, a point, and digits again are read as a float.
pub proof fn lemma_fraction_is_float(s: Seq<char>, point: int)
    requires
        0 < point < s.len() - 1,
        s[point] == '.',
        forall|i: int| 0 <= i < s.len() && i != point ==> is_digit(#[trigger] s[i]),
    ensures
        classify(s) == Some(Number::Float),
{
    assert(is_digit(s[0]));
    assert(!is_digit(s[point]));
    assert(s.skip(0)[point] == s[point]);
    lemma_run_len_is(s, 0, CharClass::Digit, point as nat);
    lemma_run_len_is(s, point + 1, CharClass::Digit, (s.len() - point - 1) as nat);
}

} // verus!
