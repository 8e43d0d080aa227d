//! The text of a line: decimal fields padded with zeros, the timestamp, and
//! the line itself.

use crate::civil::CivilTime;
use crate::level::LogLevel;
use vstd::prelude::*;

verus! {

/// The character of the decimal digit `d`.
pub open spec fn digit(d: int) -> char {
    if d == 0 {
        '0'
    } else if d == 1 {
        '1'
    } else if d == 2 {
        '2'
    } else if d == 3 {
        '3'
    } else if d == 4 {
        '4'
    } else if d == 5 {
        '5'
    } else if d == 6 {
        '6'
    } else if d == 7 {
        '7'
    } else if d == 8 {
        '8'
    } else {
        '9'
    }
}

/// The decimal digits of `n`, the most significant first, with no leading zero
/// (and the single digit 0 for zero).
pub open spec fn decimal(n: nat) -> Seq<char>
    decreases n,
{
    if n < 10 {
        seq![digit(n as int)]
    } else {
        decimal(n / 10).push(digit((n % 10) as int))
    }
}

/// `count` zeros.
pub open spec fn zeros(count: nat) -> Seq<char> {
    Seq::new(count, |i: int| '0')
}

/// The decimal digits of `n`, with zeros in front of them where they are
/// fewer than `width`. A number with more digits is written in full.
pub open spec fn zero_padded(n: nat, width: nat) -> Seq<char> {
    let digits = decimal(n);
    if digits.len() >= width {
        digits
    } else {
        zeros((width - digits.len()) as nat) + digits
    }
}

/// The text `DD/MM/YYYY HH:MM:SS.mmm` of a civil time and a number of
/// milliseconds.
pub open spec fn timestamp_text(t: CivilTime, millis: nat) -> Seq<char> {
    zero_padded(t.day as nat, 2) + seq!['/'] + zero_padded(t.month as nat, 2) + seq!['/']
        + zero_padded(t.year as nat, 4) + seq![' '] + zero_padded(t.hour as nat, 2) + seq![':']
        + zero_padded(t.minute as nat, 2) + seq![':'] + zero_padded(t.second as nat, 2)
        + seq!['.'] + zero_padded(millis, 3)
}

/// The text `[timestamp][LEVEL] message` of a line, without the newline that
/// ends it in a sink. The message stands in it as it is, with nothing escaped.
pub open spec fn line_text(timestamp: Seq<char>, level: LogLevel, message: Seq<char>) -> Seq<
    char,
> {
    seq!['['] + timestamp + seq![']', '['] + level.name() + seq![']', ' '] + message
}

/// The one-character text of the decimal digit `d`.
fn digit_str(d: u64) -> (text: &'static str)
    requires
        d < 10,
    ensures
        text@ == seq![digit(d as int)],
{
    proof {
        reveal_strlit("0");
        reveal_strlit("1");
        reveal_strlit("2");
        reveal_strlit("3");
        reveal_strlit("4");
        reveal_strlit("5");
        reveal_strlit("6");
        reveal_strlit("7");
        reveal_strlit("8");
        reveal_strlit("9");
    }
    let text = if d == 0 {
        "0"
    } else if d == 1 {
        "1"
    } else if d == 2 {
        "2"
    } else if d == 3 {
        "3"
    } else if d == 4 {
        "4"
    } else if d == 5 {
        "5"
    } else if d == 6 {
        "6"
    } else if d == 7 {
        "7"
    } else if d == 8 {
        "8"
    } else {
        "9"
    };
    assert(text@ =~= seq![digit(d as int)]);
    text
}

/// A number below 2^64 has at most twenty decimal digits.
proof fn lemma_decimal_width(n: nat)
    requires
        n <= u64::MAX,
    ensures
        1 <= decimal(n).len() <= 20,
{
    reveal_with_fuel(decimal, 21);
}

/// Number of decimal digits of `n`.
fn decimal_width(n: u64) -> (width: usize)
    ensures
        width == decimal(n as nat).len(),
    decreases n,
{
    if n < 10 {
        1
    } else {
        proof {
            lemma_decimal_width(n as nat);
        }
        decimal_width(n / 10) + 1
    }
}

/// Appends the decimal digits of `n` to `out`.
fn push_decimal(out: &mut String, n: u64)
    ensures
        final(out)@ == old(out)@ + decimal(n as nat),
    decreases n,
{
    if n >= 10 {
        push_decimal(out, n / 10);
    }
    out.append(digit_str(n % 10));
}

/// Appends to `out` the decimal digits of `n`, padded with zeros to `width`.
pub fn push_zero_padded(out: &mut String, n: u64, width: usize)
    ensures
        final(out)@ == old(out)@ + zero_padded(n as nat, width as nat),
{
    let digits: usize = decimal_width(n);
    let mut written: usize = digits;
    while written < width
        invariant
            digits == decimal(n as nat).len(),
            digits <= written,
            digits < width ==> written <= width,
            digits >= width ==> written == digits,
            out@ == old(out)@ + zeros((written - digits) as nat),
        decreases width - written,
    {
        proof {
            reveal_strlit("0");
        }
        out.append("0");
        written = written + 1;
        assert(out@ =~= old(out)@ + zeros((written - digits) as nat));
    }
    let ghost padding = zeros((written - digits) as nat);
    push_decimal(out, n);
    assert(out@ =~= old(out)@ + (padding + decimal(n as nat)));
    assert(padding + decimal(n as nat) =~= zero_padded(n as nat, width as nat));
}

/// Renders a civil time and a number of milliseconds as
/// `DD/MM/YYYY HH:MM:SS.mmm`.
pub fn format_timestamp(t: &CivilTime, millis: u32) -> (text: String)
    ensures
        text@ == timestamp_text(*t, millis as nat),
{
    proof {
        reveal_strlit("/");
        reveal_strlit(" ");
        reveal_strlit(":");
        reveal_strlit(".");
    }
    let mut text = String::new();
    push_zero_padded(&mut text, t.day as u64, 2);
    text.append("/");
    push_zero_padded(&mut text, t.month as u64, 2);
    text.append("/");
    push_zero_padded(&mut text, t.year, 4);
    text.append(" ");
    push_zero_padded(&mut text, t.hour as u64, 2);
    text.append(":");
    push_zero_padded(&mut text, t.minute as u64, 2);
    text.append(":");
    push_zero_padded(&mut text, t.second as u64, 2);
    text.append(".");
    push_zero_padded(&mut text, millis as u64, 3);
    assert(text@ =~= timestamp_text(*t, millis as nat));
    text
}

/// Renders a line of the form `[timestamp][LEVEL] message`.
pub fn format_line(timestamp: &str, level: LogLevel, message: &str) -> (line: String)
    ensures
        line@ == line_text(timestamp@, level, message@),
{
    proof {
        reveal_strlit("[");
        reveal_strlit("][");
        reveal_strlit("] ");
    }
    let mut line = String::new();
    line.append("[");
    line.append(timestamp);
    line.append("][");
    line.append(level.as_str());
    line.append("] ");
    line.append(message);
    assert(line@ =~= line_text(timestamp@, level, message@));
    line
}

} // verus!
