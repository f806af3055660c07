//! From the quality that a scan reports to the power that a record holds,
//! and its text.

use vstd::prelude::*;
use vstd::string::StringExecFns;

verus! {

/// The quotient of `a` by two, rounded toward zero.
pub open spec fn half(a: int) -> int {
    if a >= 0 {
        a / 2
    } else {
        -((-a) / 2)
    }
}

/// The power that stands for the quality `raw`: half of it, rounded toward
/// zero, less one hundred.
pub open spec fn power_of(raw: int) -> int {
    half(raw) - 100
}

/// The character that writes the digit `d`.
pub open spec fn digit_char(d: int) -> char {
    if d == 0 {
        '0'
    } else if d == 1 {
        '1'
    } else if d == 2 {
        '2'
    } else if d == 3 {
        '3'
    } else if d == 4 {
        '4'
    } else if d == 5 {
        '5'
    } else if d == 6 {
        '6'
    } else if d == 7 {
        '7'
    } else if d == 8 {
        '8'
    } else {
        '9'
    }
}

/// The digits that write `n` in base ten, with no zero before them.
pub open spec fn numeral(n: nat) -> Seq<char>
    decreases n,
{
    if n < 10 {
        seq![digit_char(n as int)]
    } else {
        numeral(n / 10).push(digit_char((n % 10) as int))
    }
}

/// The text that writes `n` in base ten: a minus sign where `n` is
/// negative, then its digits.
pub open spec fn decimal(n: int) -> Seq<char> {
    if n < 0 {
        seq!['-'] + numeral((-n) as nat)
    } else {
        numeral(n as nat)
    }
}

/// Turns a quality into a power. Every `i32` is accepted; none overflows.
pub fn calc_decibels(raw: i32) -> (power: i32)
    ensures
        power == power_of(raw as int),
{
    raw / 2 - 100
}

/// The text of one digit.
fn digit_text(d: u32) -> (text: &'static str)
    requires
        d < 10,
    ensures
        text@ == seq![digit_char(d as int)],
{
    proof {
        reveal_strlit("0");
        reveal_strlit("1");
        reveal_strlit("2");
        reveal_strlit("3");
        reveal_strlit("4");
        reveal_strlit("5");
        reveal_strlit("6");
        reveal_strlit("7");
        reveal_strlit("8");
        reveal_strlit("9");
    }
    let text = match d {
        0 => "0",
        1 => "1",
        2 => "2",
        3 => "3",
        4 => "4",
        5 => "5",
        6 => "6",
        7 => "7",
        8 => "8",
        _ => "9",
    };
    assert(text@ =~= seq![digit_char(d as int)]);
    text
}

/// Writes the digits of `n` behind what `out` holds.
fn push_numeral(out: &mut String, n: u32)
    ensures
        final(out)@ == old(out)@ + numeral(n as nat),
    decreases n,
{
    if n >= 10 {
        push_numeral(out, n / 10);
    }
    out.append(digit_text(n % 10));
    assert(final(out)@ =~= old(out)@ + numeral(n as nat));
}

/// The text that writes `n` in base ten.
pub fn decimal_text(n: i32) -> (text: String)
    ensures
        text@ == decimal(n as int),
{
    let mut text = String::new();
    if n < 0 {
        proof {
            reveal_strlit("-");
        }
        text.append("-");
        push_numeral(&mut text, (-(n as i64)) as u32);
    } else {
        push_numeral(&mut text, n as u32);
    }
    assert(text@ =~= decimal(n as int));
    text
}

/// The text of the power that stands for the quality `value`.
pub fn parse_signal_strength(value: i32) -> (text: String)
    ensures
        text@ == decimal(power_of(value as int)),
{
    decimal_text(calc_decibels(value))
}

} // verus!
