//! Spans of time as short texts.

use crate::time::{Duration, NANOS_PER_MILLI, NANOS_PER_SEC};
use vstd::prelude::*;

verus! {

/// The decimal digit of value `n`.
pub open spec fn digit(n: nat) -> char {
    (48 + n) as char
}

/// `n` in decimal, without leading zeros.
pub open spec fn decimal(n: nat) -> Seq<char>
    decreases n,
{
    if n < 10 {
        seq![digit(n)]
    } else {
        decimal(n / 10).push(digit(n % 10))
    }
}

/// `n` in decimal, with a leading zero where it has one digit only.
pub open spec fn two_digits(n: nat) -> Seq<char> {
    if n < 10 {
        seq!['0'] + decimal(n)
    } else {
        decimal(n)
    }
}

/// A span of `nanos` nanoseconds as a text: "ZERO" where it is empty, whole milliseconds where it
/// is shorter than a second, seconds or minutes and seconds where it is shorter than an hour, and
/// otherwise hours, minutes and seconds. All but hours and milliseconds have two digits.
pub open spec fn hms(nanos: nat) -> Seq<char> {
    let secs = nanos / NANOS_PER_SEC as nat;
    if nanos == 0 {
        "ZERO"@
    } else if secs == 0 {
        decimal(nanos / NANOS_PER_MILLI as nat) + "ms"@
    } else if secs < 60 {
        two_digits(secs) + "s"@
    } else if secs < 3600 {
        two_digits(secs / 60) + "m"@ + two_digits(secs % 60) + "s"@
    } else {
        decimal(secs / 3600) + "H"@ + two_digits(secs % 3600 / 60) + "m"@ + two_digits(secs % 60)
            + "s"@
    }
}

/// The text of one decimal digit.
fn digit_text(n: u64) -> (text: &'static str)
    requires
        n < 10,
    ensures
        text@ == seq![digit(n as nat)],
{
    proof {
        reveal_strlit("0");
        reveal_strlit("1");
        reveal_strlit("2");
        reveal_strlit("3");
        reveal_strlit("4");
        reveal_strlit("5");
        reveal_strlit("6");
        reveal_strlit("7");
        reveal_strlit("8");
        reveal_strlit("9");
    }
    match n {
        0 => "0",
        1 => "1",
        2 => "2",
        3 => "3",
        4 => "4",
        5 => "5",
        6 => "6",
        7 => "7",
        8 => "8",
        _ => "9",
    }
}

/// Appends `n` in decimal.
fn push_decimal(out: &mut String, n: u64)
    ensures
        final(out)@ == old(out)@ + decimal(n as nat),
    decreases n,
{
    if n >= 10 {
        push_decimal(out, n / 10);
    }
    out.append(digit_text(n % 10));
}

/// Appends `n` with at least two digits, and the letter of its unit.
fn push_part(out: &mut String, n: u64, unit: &str)
    ensures
        final(out)@ == old(out)@ + two_digits(n as nat) + unit@,
{
    if n < 10 {
        proof {
            reveal_strlit("0");
        }
        out.append("0");
    }
    push_decimal(out, n);
    out.append(unit);
}

/// Converts a span of time into a "0H00m00s" text, such as "2H15m30s".
///
/// An empty span is "ZERO". A span shorter than a second is given in whole milliseconds. A span
/// shorter than an hour has no hours, and one shorter than a minute has no minutes either. What
/// goes beyond whole seconds is dropped.
pub fn hms_string(duration: Duration) -> (text: String)
    ensures
        text@ == hms(duration@),
{
    if duration.is_zero() {
        return "ZERO".to_string();
    }
    let total: u64 = duration.as_secs();
    let mut text = String::new();
    if total == 0 {
        push_decimal(&mut text, duration.subsec_millis() as u64);
        text.append("ms");
        return text;
    }
    if total >= 3600 {
        push_decimal(&mut text, total / 3600);
        text.append("H");
    }
    if total >= 60 {
        push_part(&mut text, total % 3600 / 60, "m");
    }
    push_part(&mut text, total % 60, "s");
    text
}

} // verus!
