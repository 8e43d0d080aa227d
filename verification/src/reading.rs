//! Reading a line back: where its two bracket groups end, what stands in
//! them, and the shape of the timestamp. Nothing in a line is escaped, so the
//! message is whatever follows the second group and one space.

use crate::civil::CivilTime;
use crate::level::LogLevel;
use crate::render::{decimal, digit, line_text, timestamp_text, zero_padded, zeros};
use vstd::prelude::*;

verus! {

/// Whether `c` is a decimal digit.
pub open spec fn is_digit(c: char) -> bool {
    '0' <= c <= '9'
}

/// Whether `text` has the shape `DD/MM/YYYY HH:MM:SS.mmm`: digits everywhere
/// but for the two slashes, the space, the two colons and the point.
pub open spec fn has_timestamp_shape(text: Seq<char>) -> bool {
    &&& text.len() == 23
    &&& forall|i: int|
        0 <= i < 23 ==> if i == 2 || i == 5 {
            text[i] == '/'
        } else if i == 10 {
            text[i] == ' '
        } else if i == 13 || i == 16 {
            text[i] == ':'
        } else if i == 19 {
            text[i] == '.'
        } else {
            is_digit(#[trigger] text[i])
        }
}

/// Whether `text` holds no `]`.
pub open spec fn has_no_close(text: Seq<char>) -> bool {
    forall|i: int| 0 <= i < text.len() ==> #[trigger] text[i] != ']'
}

/// Position of the first `]` in `text`; the length of `text` if it holds none.
pub open spec fn first_close(text: Seq<char>) -> int
    decreases text.len(),
{
    if text.len() == 0 || text.first() == ']' {
        0
    } else {
        1 + first_close(text.drop_first())
    }
}

/// The level with the given name, if it is the name of a level.
pub open spec fn level_named(name: Seq<char>) -> Option<LogLevel> {
    if name == LogLevel::Trace.name() {
        Some(LogLevel::Trace)
    } else if name == LogLevel::Debug.name() {
        Some(LogLevel::Debug)
    } else if name == LogLevel::Info.name() {
        Some(LogLevel::Info)
    } else if name == LogLevel::Warn.name() {
        Some(LogLevel::Warn)
    } else if name == LogLevel::Error.name() {
        Some(LogLevel::Error)
    } else {
        None
    }
}

/// What a line of the form `[timestamp][LEVEL] message` holds.
pub struct LineParts {
    pub timestamp: Seq<char>,
    pub level: LogLevel,
    pub message: Seq<char>,
}

/// Splits a line at its two bracket groups: the timestamp runs from the
/// opening bracket to the first `]`, the level's name stands in the brackets
/// that follow at once, and the message is all that follows one space after
/// them. `None` where the line has no such form.
pub open spec fn split_line(line: Seq<char>) -> Option<LineParts> {
    let first = first_close(line.skip(1));
    let tail = line.skip(first + 2);
    let second = first_close(tail.skip(1));
    let rest = tail.skip(second + 2);
    if line.len() > 0 && line[0] == '[' && first + 1 < line.len() && tail.len() > 0 && tail[0]
        == '[' && second + 1 < tail.len() && rest.len() > 0 && rest[0] == ' ' {
        match level_named(tail.subrange(1, second + 1)) {
            Some(level) => Some(
                LineParts {
                    timestamp: line.subrange(1, first + 1),
                    level,
                    message: rest.skip(1),
                },
            ),
            None => None,
        }
    } else {
        None
    }
}

/// Behind a text without `]`, the first `]` is the one that follows it.
proof fn lemma_first_close(before: Seq<char>, after: Seq<char>)
    requires
        has_no_close(before),
    ensures
        first_close(before + seq![']'] + after) == before.len(),
    decreases before.len(),
{
    let text = before + seq![']'] + after;
    if before.len() == 0 {
        assert(text.first() == ']');
    } else {
        assert(text.first() == before[0]);
        assert(text.drop_first() =~= before.drop_first() + seq![']'] + after);
        assert forall|i: int| 0 <= i < before.drop_first().len() implies #[trigger] before.drop_first()[i]
            != ']' by {
            assert(before.drop_first()[i] == before[i + 1]);
        }
        lemma_first_close(before.drop_first(), after);
    }
}

/// A number is written with digits only.
proof fn lemma_decimal_digits(n: nat)
    ensures
        forall|i: int| 0 <= i < decimal(n).len() ==> is_digit(#[trigger] decimal(n)[i]),
    decreases n,
{
    if n >= 10 {
        lemma_decimal_digits(n / 10);
        let head = decimal(n / 10);
        assert forall|i: int| 0 <= i < decimal(n).len() implies is_digit(
            #[trigger] decimal(n)[i],
        ) by {
            if i < head.len() {
                assert(decimal(n)[i] == head[i]);
            }
        }
    }
}

/// A number padded with zeros is written with digits only.
proof fn lemma_padded_digits(n: nat, width: nat)
    ensures
        forall|i: int|
            0 <= i < zero_padded(n, width).len() ==> is_digit(#[trigger] zero_padded(n, width)[i]),
{
    lemma_decimal_digits(n);
    let digits = decimal(n);
    if digits.len() < width {
        let padding = zeros((width - digits.len()) as nat);
        assert forall|i: int| 0 <= i < zero_padded(n, width).len() implies is_digit(
            #[trigger] zero_padded(n, width)[i],
        ) by {
            if i < padding.len() {
                assert(zero_padded(n, width)[i] == padding[i]);
            } else {
                assert(zero_padded(n, width)[i] == digits[i - padding.len()]);
            }
        }
    }
}

/// Two texts without `]` make a text without `]`.
proof fn lemma_joined_has_no_close(left: Seq<char>, right: Seq<char>)
    requires
        has_no_close(left),
        has_no_close(right),
    ensures
        has_no_close(left + right),
{
}

/// A number padded with zeros holds no `]`.
proof fn lemma_number_has_no_close(n: nat, width: nat)
    ensures
        has_no_close(zero_padded(n, width)),
{
    lemma_padded_digits(n, width);
}

/// The names of the levels hold no `]`, and each names its own level.
pub proof fn lemma_level_names(level: LogLevel)
    ensures
        has_no_close(level.name()),
        level_named(level.name()) == Some(level),
{
    reveal_strlit("TRACE");
    reveal_strlit("DEBUG");
    reveal_strlit("INFO");
    reveal_strlit("WARN");
    reveal_strlit("ERROR");
    assert("TRACE"@[0] == 'T' && "DEBUG"@[0] == 'D' && "INFO"@[0] == 'I' && "WARN"@[0] == 'W'
        && "ERROR"@[0] == 'E');
}

/// A timestamp holds no `]`, whatever the civil time and the milliseconds.
pub proof fn lemma_timestamp_has_no_close(t: CivilTime, millis: nat)
    ensures
        has_no_close(timestamp_text(t, millis)),
{
    lemma_number_has_no_close(t.day as nat, 2);
    lemma_number_has_no_close(t.month as nat, 2);
    lemma_number_has_no_close(t.year as nat, 4);
    lemma_number_has_no_close(t.hour as nat, 2);
    lemma_number_has_no_close(t.minute as nat, 2);
    lemma_number_has_no_close(t.second as nat, 2);
    lemma_number_has_no_close(millis, 3);
    let a = zero_padded(t.day as nat, 2) + seq!['/'];
    lemma_joined_has_no_close(zero_padded(t.day as nat, 2), seq!['/']);
    let b = a + zero_padded(t.month as nat, 2);
    lemma_joined_has_no_close(a, zero_padded(t.month as nat, 2));
    let c = b + seq!['/'];
    lemma_joined_has_no_close(b, seq!['/']);
    let d = c + zero_padded(t.year as nat, 4);
    lemma_joined_has_no_close(c, zero_padded(t.year as nat, 4));
    let e = d + seq![' '];
    lemma_joined_has_no_close(d, seq![' ']);
    let f = e + zero_padded(t.hour as nat, 2);
    lemma_joined_has_no_close(e, zero_padded(t.hour as nat, 2));
    let g = f + seq![':'];
    lemma_joined_has_no_close(f, seq![':']);
    let h = g + zero_padded(t.minute as nat, 2);
    lemma_joined_has_no_close(g, zero_padded(t.minute as nat, 2));
    let i = h + seq![':'];
    lemma_joined_has_no_close(h, seq![':']);
    let j = i + zero_padded(t.second as nat, 2);
    lemma_joined_has_no_close(i, zero_padded(t.second as nat, 2));
    let k = j + seq!['.'];
    lemma_joined_has_no_close(j, seq!['.']);
    lemma_joined_has_no_close(k, zero_padded(millis, 3));
}

/// Splitting a line gives back the timestamp, the level and the message that
/// it was made of, the message character for character, provided that the
/// timestamp holds no `]`.
pub proof fn lemma_split_line(timestamp: Seq<char>, level: LogLevel, message: Seq<char>)
    requires
        has_no_close(timestamp),
    ensures
        split_line(line_text(timestamp, level, message)) == Some(
            LineParts { timestamp, level, message },
        ),
{
    let line = line_text(timestamp, level, message);
    let name = level.name();
    lemma_level_names(level);
    let tail_text = seq!['['] + name + seq![']', ' '] + message;
    assert(line.skip(1) =~= timestamp + seq![']'] + tail_text);
    lemma_first_close(timestamp, tail_text);
    let first = first_close(line.skip(1));
    assert(first == timestamp.len());
    let tail = line.skip(first + 2);
    assert(tail =~= tail_text);
    let rest_text = seq![' '] + message;
    assert(tail.skip(1) =~= name + seq![']'] + rest_text);
    lemma_first_close(name, rest_text);
    let second = first_close(tail.skip(1));
    assert(second == name.len());
    let rest = tail.skip(second + 2);
    assert(rest =~= rest_text);
    assert(tail.subrange(1, second + 1) =~= name);
    assert(line.subrange(1, first + 1) =~= timestamp);
    assert(rest.skip(1) =~= message);
}

/// A line read back gives the timestamp, the level and the message of the
/// line that was rendered: the message unaltered, whatever brackets and
/// newlines it holds.
pub proof fn lemma_line_round_trip(t: CivilTime, millis: nat, level: LogLevel, message: Seq<char>)
    ensures
        split_line(line_text(timestamp_text(t, millis), level, message)) == Some(
            LineParts { timestamp: timestamp_text(t, millis), level, message },
        ),
{
    lemma_timestamp_has_no_close(t, millis);
    lemma_split_line(timestamp_text(t, millis), level, message);
}

/// A number below 100 padded to two places is its two digits.
proof fn lemma_two_places(n: nat)
    requires
        n < 100,
    ensures
        zero_padded(n, 2) == seq![digit((n / 10) as int), digit((n % 10) as int)],
{
    reveal_with_fuel(decimal, 3);
    if n < 10 {
        assert(zeros(1) + decimal(n) =~= seq![digit(0), digit(n as int)]);
    } else {
        assert(decimal(n) =~= seq![digit((n / 10) as int), digit((n % 10) as int)]);
    }
}

/// A number below 1000 padded to three places is its three digits.
proof fn lemma_three_places(n: nat)
    requires
        n < 1000,
    ensures
        zero_padded(n, 3) == seq![
            digit((n / 100) as int),
            digit((n / 10 % 10) as int),
            digit((n % 10) as int),
        ],
{
    reveal_with_fuel(decimal, 4);
    let text = seq![digit((n / 100) as int), digit((n / 10 % 10) as int), digit((n % 10) as int)];
    if n < 10 {
        assert(zeros(2) + decimal(n) =~= text);
    } else if n < 100 {
        assert(zeros(1) + decimal(n) =~= text);
    } else {
        assert(decimal(n) =~= text);
    }
}

/// A number below 10000 padded to four places is its four digits.
proof fn lemma_four_places(n: nat)
    requires
        n < 10000,
    ensures
        zero_padded(n, 4) == seq![
            digit((n / 1000) as int),
            digit((n / 100 % 10) as int),
            digit((n / 10 % 10) as int),
            digit((n % 10) as int),
        ],
{
    reveal_with_fuel(decimal, 5);
    let text = seq![
        digit((n / 1000) as int),
        digit((n / 100 % 10) as int),
        digit((n / 10 % 10) as int),
        digit((n % 10) as int),
    ];
    if n < 10 {
        assert(zeros(3) + decimal(n) =~= text);
    } else if n < 100 {
        assert(zeros(2) + decimal(n) =~= text);
    } else if n < 1000 {
        assert(zeros(1) + decimal(n) =~= text);
    } else {
        assert(decimal(n) =~= text);
    }
}

/// The timestamp of a valid civil time has the shape
/// `DD/MM/YYYY HH:MM:SS.mmm`, as long as the year has at most four digits
/// and the milliseconds at most three.
pub proof fn lemma_timestamp_shape(t: CivilTime, millis: nat)
    requires
        t.is_valid(),
        t.year <= 9999,
        millis <= 999,
    ensures
        has_timestamp_shape(timestamp_text(t, millis)),
{
    lemma_two_places(t.day as nat);
    lemma_two_places(t.month as nat);
    lemma_four_places(t.year as nat);
    lemma_two_places(t.hour as nat);
    lemma_two_places(t.minute as nat);
    lemma_two_places(t.second as nat);
    lemma_three_places(millis);
    let text = timestamp_text(t, millis);
    assert(text.len() == 23);
    assert forall|i: int| 0 <= i < 23 && i != 2 && i != 5 && i != 10 && i != 13 && i != 16 && i
        != 19 implies is_digit(#[trigger] text[i]) by {
        lemma_padded_digits(t.day as nat, 2);
        lemma_padded_digits(t.month as nat, 2);
        lemma_padded_digits(t.year as nat, 4);
        lemma_padded_digits(t.hour as nat, 2);
        lemma_padded_digits(t.minute as nat, 2);
        lemma_padded_digits(t.second as nat, 2);
        lemma_padded_digits(millis, 3);
    }
}

} // verus!
