//! Decimal numerals: what they denote, reading them and writing them.

use vstd::prelude::*;
use vstd::string::StringExecFns;

verus! {

/// The error of the integer parsers of the standard library, carried as it
/// is.
#[verifier::external_type_specification]
#[verifier::external_body]
pub struct ExParseIntError(core::num::ParseIntError);

/// One of the ten digits `0` to `9`.
pub open spec fn is_digit(c: char) -> bool {
    '0' <= c <= '9'
}

/// The value of a digit.
pub open spec fn digit_value(c: char) -> nat {
    (c as u32 - '0' as u32) as nat
}

/// The digit that stands for `d`, for `d` below ten.
pub open spec fn digit_char(d: nat) -> char {
    if d == 0 {
        '0'
    } else if d == 1 {
        '1'
    } else if d == 2 {
        '2'
    } else if d == 3 {
        '3'
    } else if d == 4 {
        '4'
    } else if d == 5 {
        '5'
    } else if d == 6 {
        '6'
    } else if d == 7 {
        '7'
    } else if d == 8 {
        '8'
    } else {
        '9'
    }
}

/// Every character of `s` is a digit.
pub open spec fn all_digits(s: Seq<char>) -> bool {
    forall|i: int| 0 <= i < s.len() ==> is_digit(#[trigger] s[i])
}

/// The number that a run of digits denotes in base ten.
pub open spec fn digits_value(s: Seq<char>) -> nat
    decreases s.len(),
{
    if s.len() == 0 {
        0
    } else {
        digits_value(s.drop_last()) * 10 + digit_value(s.last())
    }
}

/// The number that a numeral without a minus sign denotes: an optional `+`,
/// then one digit or more. `None` for any other text.
pub open spec fn unsigned_numeral(s: Seq<char>) -> Option<nat> {
    let digits = if s.len() > 0 && s[0] == '+' {
        s.subrange(1, s.len() as int)
    } else {
        s
    };
    if digits.len() > 0 && all_digits(digits) {
        Some(digits_value(digits))
    } else {
        None
    }
}

/// The number that a numeral denotes: an optional `+` or `-`, then one digit
/// or more. `None` for any other text.
pub open spec fn signed_numeral(s: Seq<char>) -> Option<int> {
    if s.len() > 0 && s[0] == '-' {
        let digits = s.subrange(1, s.len() as int);
        if digits.len() > 0 && all_digits(digits) {
            Some(-(digits_value(digits) as int))
        } else {
            None
        }
    } else {
        match unsigned_numeral(s) {
            Some(n) => Some(n as int),
            None => None,
        }
    }
}

/// What reading `s` as a `u32` gives: the number it denotes, if it is a
/// numeral and the number fits.
pub open spec fn numeral_u32(s: Seq<char>) -> Option<u32> {
    match unsigned_numeral(s) {
        Some(n) if n <= u32::MAX => Some(n as u32),
        _ => None,
    }
}

/// What reading `s` as an `i32` gives: the number it denotes, if it is a
/// numeral and the number fits.
pub open spec fn numeral_i32(s: Seq<char>) -> Option<i32> {
    match signed_numeral(s) {
        Some(n) if i32::MIN <= n <= i32::MAX => Some(n as i32),
        _ => None,
    }
}

/// Reads a decimal numeral as a `u32`.
///
/// Calls `str::parse::<u32>`. By the documentation of `u32::from_str` the text
/// must be an optional `+` followed by digits only, and the call fails on
/// anything else, on an empty text and on a number that does not fit; the
/// contract says that.
#[verifier::external_body]
pub(crate) fn parse_u32(s: &str) -> (parsed: Result<u32, core::num::ParseIntError>)
    ensures
        parsed is Ok <==> numeral_u32(s@) is Some,
        parsed matches Ok(v) ==> numeral_u32(s@) == Some(v),
{
    s.parse::<u32>()
}

/// Reads a decimal numeral as an `i32`.
///
/// Calls `str::parse::<i32>`. By the documentation of `i32::from_str` the text
/// must be an optional `+` or `-` followed by digits only, and the call fails
/// on anything else, on an empty text and on a number that does not fit; the
/// contract says that.
#[verifier::external_body]
pub(crate) fn parse_i32(s: &str) -> (parsed: Result<i32, core::num::ParseIntError>)
    ensures
        parsed is Ok <==> numeral_i32(s@) is Some,
        parsed matches Ok(v) ==> numeral_i32(s@) == Some(v),
{
    s.parse::<i32>()
}

/// The digits of `n` in base ten, without leading zeros.
pub open spec fn decimal_digits(n: nat) -> Seq<char>
    decreases n,
{
    if n < 10 {
        seq![digit_char(n)]
    } else {
        decimal_digits(n / 10).push(digit_char(n % 10))
    }
}

/// One digit as text.
fn digit_text(d: usize) -> (text: &'static str)
    requires
        d < 10,
    ensures
        text@ == seq![digit_char(d as nat)],
{
    proof {
        reveal_strlit("0");
        reveal_strlit("1");
        reveal_strlit("2");
        reveal_strlit("3");
        reveal_strlit("4");
        reveal_strlit("5");
        reveal_strlit("6");
        reveal_strlit("7");
        reveal_strlit("8");
        reveal_strlit("9");
    }
    let text = if d == 0 {
        "0"
    } else if d == 1 {
        "1"
    } else if d == 2 {
        "2"
    } else if d == 3 {
        "3"
    } else if d == 4 {
        "4"
    } else if d == 5 {
        "5"
    } else if d == 6 {
        "6"
    } else if d == 7 {
        "7"
    } else if d == 8 {
        "8"
    } else {
        "9"
    };
    assert(text@ =~= seq![digit_char(d as nat)]);
    text
}

/// Writes `n` in base ten.
pub fn decimal_string(n: usize) -> (text: String)
    ensures
        text@ == decimal_digits(n as nat),
    decreases n,
{
    if n < 10 {
        digit_text(n).to_owned()
    } else {
        let text = decimal_string(n / 10).concat(digit_text(n % 10));
        assert(text@ =~= decimal_digits(n as nat));
        text
    }
}

} // verus!
