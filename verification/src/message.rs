//! Verified construction of the invalid-direction report.
//!
//! Direction indexes outside `0..6` are rejected with a message that names
//! the offending value. The message text is assembled digit by digit in
//! verified code, so its exact contents are pinned down by
//! [`invalid_direction_msg`].

use vstd::prelude::*;
use vstd::string::StringExecFns;

verus! {

/// The character for the decimal digit `d`.
pub open spec fn digit_char(d: int) -> char {
    if d == 0 {
        '0'
    } else if d == 1 {
        '1'
    } else if d == 2 {
        '2'
    } else if d == 3 {
        '3'
    } else if d == 4 {
        '4'
    } else if d == 5 {
        '5'
    } else if d == 6 {
        '6'
    } else if d == 7 {
        '7'
    } else if d == 8 {
        '8'
    } else {
        '9'
    }
}

/// The decimal digits of `n`, most significant first.
pub open spec fn decimal_digits(n: int) -> Seq<char>
    decreases n,
{
    if n < 10 {
        seq![digit_char(n)]
    } else {
        decimal_digits(n / 10).push(digit_char(n % 10))
    }
}

/// The report for the out-of-range direction index `d`.
pub open spec fn invalid_direction_msg(d: int) -> Seq<char> {
    "Invalid direction: "@ + decimal_digits(d)
}

/// Append the decimal digits of `n` to `s`, most significant first.
fn push_decimal(n: u64, s: &mut String)
    ensures
        final(s)@ == old(s)@ + decimal_digits(n as int),
    decreases n,
{
    if n >= 10 {
        push_decimal(n / 10, s);
    }
    let ghost mid = s@;
    let d = n % 10;
    let digit: &str = if d == 0 {
        "0"
    } else if d == 1 {
        "1"
    } else if d == 2 {
        "2"
    } else if d == 3 {
        "3"
    } else if d == 4 {
        "4"
    } else if d == 5 {
        "5"
    } else if d == 6 {
        "6"
    } else if d == 7 {
        "7"
    } else if d == 8 {
        "8"
    } else {
        "9"
    };
    proof {
        reveal_strlit("0");
        reveal_strlit("1");
        reveal_strlit("2");
        reveal_strlit("3");
        reveal_strlit("4");
        reveal_strlit("5");
        reveal_strlit("6");
        reveal_strlit("7");
        reveal_strlit("8");
        reveal_strlit("9");
        assert(digit@ =~= seq![digit_char(d as int)]);
    }
    s.append(digit);
    proof {
        if n >= 10 {
            assert(s@ =~= old(s)@ + decimal_digits(n as int));
        } else {
            assert(mid == old(s)@);
            assert(s@ =~= old(s)@ + decimal_digits(n as int));
        }
    }
}

/// Build the report for the out-of-range direction index `d`.
pub fn invalid_direction_message(d: usize) -> (m: String)
    ensures
        m@ == invalid_direction_msg(d as int),
{
    let mut s = String::from_str("Invalid direction: ");
    push_decimal(d as u64, &mut s);
    s
}

} // verus!
