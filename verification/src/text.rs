//! Dates and errors as text.

use crate::calendar::historical;
use crate::model::DateView;
use crate::DateError;
use vstd::prelude::*;
use vstd::string::StringExecFns;

verus! {

/// The character of the decimal digit `d`, for a digit in `0..=9`.
pub open spec fn digit_char(d: int) -> char {
    if d == 0 {
        '0'
    } else if d == 1 {
        '1'
    } else if d == 2 {
        '2'
    } else if d == 3 {
        '3'
    } else if d == 4 {
        '4'
    } else if d == 5 {
        '5'
    } else if d == 6 {
        '6'
    } else if d == 7 {
        '7'
    } else if d == 8 {
        '8'
    } else {
        '9'
    }
}

/// The decimal digits of `n`, the most significant first and without leading
/// zeros.
pub open spec fn decimal(n: nat) -> Seq<char>
    decreases n,
{
    if n < 10 {
        seq![digit_char(n as int)]
    } else {
        decimal(n / 10).push(digit_char((n % 10) as int))
    }
}

/// The decimal digits of `n`, after a minus sign where `n` is negative.
pub open spec fn signed_decimal(n: int) -> Seq<char> {
    if n < 0 {
        seq!['-'] + decimal((-n) as nat)
    } else {
        decimal(n as nat)
    }
}

/// The decimal digits of `n`, with a leading zero where there is one digit
/// only.
pub open spec fn zero_padded(n: nat) -> Seq<char> {
    if n < 10 {
        seq!['0'] + decimal(n)
    } else {
        decimal(n)
    }
}

/// A date as text: the historical year, the month and the day, the last two
/// with two digits at least, separated by hyphens between spaces.
pub open spec fn date_text(v: DateView) -> Seq<char> {
    signed_decimal(historical(v.year)) + " - "@ + zero_padded(v.month() as nat) + " - "@
        + zero_padded(v.day() as nat)
}

/// What an error says of itself.
pub open spec fn error_text(error: DateError) -> Seq<char> {
    match error {
        DateError::InvalidNewInput => "Invalid input introducing values to NEW"@,
        DateError::OutOfLimits => "the date is outside of the limits (-9999 - 9999) years"@,
        DateError::InternalError => "internal error, found a weird number in index"@,
        DateError::NotRepresentable => "the day of the week is not defined before the year 1"@,
    }
}

/// The decimal digit `d` as text.
pub fn digit_str(d: u32) -> (text: &'static str)
    requires
        d < 10,
    ensures
        text@ == seq![digit_char(d as int)],
{
    proof {
        reveal_strlit("0");
        reveal_strlit("1");
        reveal_strlit("2");
        reveal_strlit("3");
        reveal_strlit("4");
        reveal_strlit("5");
        reveal_strlit("6");
        reveal_strlit("7");
        reveal_strlit("8");
        reveal_strlit("9");
    }
    let text: &'static str = match d {
        0 => "0",
        1 => "1",
        2 => "2",
        3 => "3",
        4 => "4",
        5 => "5",
        6 => "6",
        7 => "7",
        8 => "8",
        _ => "9",
    };
    assert(text@ =~= seq![digit_char(d as int)]);
    text
}

/// Appends the decimal digits of `n` to `text`.
pub fn append_decimal(text: &mut String, n: u32)
    ensures
        final(text)@ == old(text)@ + decimal(n as nat),
    decreases n,
{
    if n >= 10 {
        append_decimal(text, n / 10);
    }
    text.append(digit_str(n % 10));
    assert(text@ =~= old(text)@ + decimal(n as nat));
}

/// Appends the decimal digits of `n` to `text`, after a zero where `n` has one
/// digit only.
pub fn append_zero_padded(text: &mut String, n: u32)
    ensures
        final(text)@ == old(text)@ + zero_padded(n as nat),
{
    if n < 10 {
        proof {
            reveal_strlit("0");
        }
        text.append("0");
    }
    append_decimal(text, n);
    assert(text@ =~= old(text)@ + zero_padded(n as nat));
}

/// Appends the decimal digits of `n` to `text`, after a minus sign where `n`
/// is negative.
pub fn append_signed_decimal(text: &mut String, n: i32)
    ensures
        final(text)@ == old(text)@ + signed_decimal(n as int),
{
    if n < 0 {
        proof {
            reveal_strlit("-");
        }
        text.append("-");
        let magnitude: i64 = -(n as i64);
        append_decimal(text, magnitude as u32);
    } else {
        append_decimal(text, n as u32);
    }
    assert(text@ =~= old(text)@ + signed_decimal(n as int));
}

} // verus!
