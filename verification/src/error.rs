//! Typed errors for invalid numerology inputs.

use vstd::prelude::*;

verus! {

/// Errors returned when inputs cannot produce a numerology result.
#[derive(Clone, Debug, PartialEq, Eq, Structural)]
pub enum NumerologyError {
    /// The name contained no usable letters after normalization.
    EmptyName,
    /// The address contained no usable digits or letters.
    EmptyAddress,
    /// The calendar date is out of the accepted range.
    InvalidDate {
        /// Provided year.
        year: u32,
        /// Provided month.
        month: u32,
        /// Provided day.
        day: u32,
    },
}


/// The character of a decimal digit.
pub open spec fn digit_char(d: nat) -> char {
    ((d + 48) as u32) as char
}

/// The decimal text of `n`, without leading zeros.
pub open spec fn decimal_text(n: nat) -> Seq<char>
    decreases n,
{
    if n < 10 {
        seq![digit_char(n)]
    } else {
        decimal_text(n / 10).push(digit_char(n % 10))
    }
}

/// The decimal text of `n`, padded with a leading zero to two characters.
pub open spec fn two_digit_text(n: nat) -> Seq<char> {
    if n < 10 {
        seq!['0'] + decimal_text(n)
    } else {
        decimal_text(n)
    }
}

impl NumerologyError {
    /// The message that describes the error.
    pub open spec fn message_text(self) -> Seq<char> {
        match self {
            NumerologyError::EmptyName => "name has no usable letters"@,
            NumerologyError::EmptyAddress => "address has no usable digits or letters"@,
            NumerologyError::InvalidDate { year, month, day } => "invalid date "@ + decimal_text(year as nat) + "-"@
                + two_digit_text(month as nat) + "-"@ + two_digit_text(day as nat),
        }
    }

    /// The message that describes the error, e.g. `invalid date 2000-02-32`.
    pub fn message(&self) -> (m: String)
        ensures
            m@ == self.message_text(),
    {
        match self {
            NumerologyError::EmptyName => String::from_str("name has no usable letters"),
            NumerologyError::EmptyAddress => String::from_str("address has no usable digits or letters"),
            NumerologyError::InvalidDate { year, month, day } => {
                let mut m = String::from_str("invalid date ");
                append_decimal(&mut m, *year);
                m.append("-");
                append_two_digits(&mut m, *month);
                m.append("-");
                append_two_digits(&mut m, *day);
                m
            },
        }
    }
}

/// The text of one decimal digit.
fn digit_str(d: u32) -> (s: &'static str)
    requires
        d < 10,
    ensures
        s@ == seq![digit_char(d as nat)],
{
    proof {
        reveal_strlit("0");
        reveal_strlit("1");
        reveal_strlit("2");
        reveal_strlit("3");
        reveal_strlit("4");
        reveal_strlit("5");
        reveal_strlit("6");
        reveal_strlit("7");
        reveal_strlit("8");
        reveal_strlit("9");
    }
    match d {
        0 => "0",
        1 => "1",
        2 => "2",
        3 => "3",
        4 => "4",
        5 => "5",
        6 => "6",
        7 => "7",
        8 => "8",
        _ => "9",
    }
}

/// Append the decimal text of `n`.
fn append_decimal(s: &mut String, n: u32)
    ensures
        final(s)@ == old(s)@ + decimal_text(n as nat),
    decreases n,
{
    if n >= 10 {
        append_decimal(s, n / 10);
    }
    s.append(digit_str(n % 10));
    proof {
        if n >= 10 {
            assert(decimal_text(n as nat) == decimal_text((n / 10) as nat).push(digit_char((n % 10) as nat)));
        }
        assert(s@ =~= old(s)@ + decimal_text(n as nat));
    }
}

/// Append the decimal text of `n`, padded with a leading zero to two characters.
fn append_two_digits(s: &mut String, n: u32)
    ensures
        final(s)@ == old(s)@ + two_digit_text(n as nat),
{
    if n < 10 {
        s.append("0");
        proof {
            reveal_strlit("0");
        }
    }
    append_decimal(s, n);
    proof {
        assert(s@ =~= old(s)@ + two_digit_text(n as nat));
    }
}

} // verus!
