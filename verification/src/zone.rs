//! The local offset: a fixed number of hours behind UTC, applied either
//! always or only where the platform's zone file names the one zone that is
//! known. This is a narrow rule and no zone database.

use vstd::prelude::*;

verus! {

/// The fixed local offset: three hours behind UTC, in seconds.
pub const LOCAL_OFFSET_SECONDS: i32 = -10800;

/// What is known of the platform's zone file.
#[derive(Debug)]
pub enum ZoneProbe {
    /// The platform keeps no zone file that is consulted.
    NotConsulted,
    /// The zone file could not be read.
    Unreadable,
    /// The text of the zone file.
    Contents(String),
}

/// Whether `c` is white space: one of the characters that Unicode marks as
/// `White_Space`.
pub open spec fn is_white_space(c: char) -> bool {
    let code = c as u32;
    ||| 0x09 <= code <= 0x0D
    ||| code == 0x20
    ||| code == 0x85
    ||| code == 0xA0
    ||| code == 0x1680
    ||| 0x2000 <= code <= 0x200A
    ||| code == 0x2028
    ||| code == 0x2029
    ||| code == 0x202F
    ||| code == 0x205F
    ||| code == 0x3000
}

/// The text without the white space at its beginning and at its end.
pub open spec fn stripped(text: Seq<char>) -> Seq<char>
    decreases text.len(),
{
    if text.len() == 0 {
        text
    } else if is_white_space(text.first()) {
        stripped(text.drop_first())
    } else if is_white_space(text.last()) {
        stripped(text.drop_last())
    } else {
        text
    }
}

/// Whether the text of a zone file names the zone of the fixed offset: apart
/// from white space around it, it is exactly `America/Sao_Paulo`.
pub open spec fn names_local_zone(contents: Seq<char>) -> bool {
    stripped(contents) == "America/Sao_Paulo"@
}

/// The offset that follows from a probe: the fixed offset where no zone file
/// is consulted or where the file names the known zone, and none otherwise.
pub open spec fn offset_of(probe: ZoneProbe) -> int {
    match probe {
        ZoneProbe::NotConsulted => LOCAL_OFFSET_SECONDS as int,
        ZoneProbe::Unreadable => 0,
        ZoneProbe::Contents(text) => if names_local_zone(text@) {
            LOCAL_OFFSET_SECONDS as int
        } else {
            0
        },
    }
}

/// Stripping a text leaves the part between its first and its last character
/// that is no white space.
proof fn lemma_stripped_is_subrange(text: Seq<char>, start: int, end: int)
    requires
        0 <= start <= end <= text.len(),
        forall|i: int| 0 <= i < start ==> is_white_space(#[trigger] text[i]),
        forall|i: int| end <= i < text.len() ==> is_white_space(#[trigger] text[i]),
        start < end ==> !is_white_space(text[start]) && !is_white_space(text[end - 1]),
    ensures
        stripped(text) == text.subrange(start, end),
    decreases text.len(),
{
    if text.len() == 0 {
        assert(text =~= text.subrange(start, end));
    } else if is_white_space(text.first()) {
        let rest = text.drop_first();
        if start >= 1 {
            lemma_stripped_is_subrange(rest, start - 1, end - 1);
            assert(rest.subrange(start - 1, end - 1) =~= text.subrange(start, end));
        } else {
            lemma_stripped_is_subrange(rest, 0, 0);
            assert(rest.subrange(0, 0) =~= text.subrange(start, end));
        }
    } else if is_white_space(text.last()) {
        let rest = text.drop_last();
        assert(text[0] == text.first());
        assert(start == 0);
        assert(text[text.len() - 1] == text.last());
        lemma_stripped_is_subrange(rest, start, end);
        assert(rest.subrange(start, end) =~= text.subrange(start, end));
    } else {
        assert(text[0] == text.first());
        assert(text[text.len() - 1] == text.last());
        assert(text =~= text.subrange(start, end));
    }
}

/// Decides whether `c` is white space.
pub fn is_space(c: char) -> (space: bool)
    ensures
        space == is_white_space(c),
{
    let code: u32 = c as u32;
    (0x09 <= code && code <= 0x0D) || code == 0x20 || code == 0x85 || code == 0xA0 || code
        == 0x1680 || (0x2000 <= code && code <= 0x200A) || code == 0x2028 || code == 0x2029
        || code == 0x202F || code == 0x205F || code == 0x3000
}

/// The characters of a text.
fn chars_of(text: &str) -> (chars: Vec<char>)
    ensures
        chars@ == text@,
{
    let mut chars: Vec<char> = Vec::new();
    for c in it: text.chars()
        invariant
            it.seq() == text@,
            chars@ == it.seq().take(it.index() as int),
    {
        chars.push(c);
    }
    chars
}

/// Decides whether the text of a zone file names the zone of the fixed offset.
pub fn is_local_zone(contents: &str) -> (named: bool)
    ensures
        named == names_local_zone(contents@),
{
    let chars = chars_of(contents);
    let name = chars_of("America/Sao_Paulo");
    let mut start: usize = 0;
    while start < chars.len() && is_space(chars[start])
        invariant
            start <= chars.len(),
            forall|i: int| 0 <= i < start ==> is_white_space(#[trigger] chars@[i]),
        decreases chars.len() - start,
    {
        start = start + 1;
    }
    let mut end: usize = chars.len();
    while end > start && is_space(chars[end - 1])
        invariant
            start <= end <= chars.len(),
            forall|i: int| end <= i < chars.len() ==> is_white_space(#[trigger] chars@[i]),
        decreases end,
    {
        end = end - 1;
    }
    let ghost kept = chars@.subrange(start as int, end as int);
    proof {
        lemma_stripped_is_subrange(chars@, start as int, end as int);
    }
    if end - start != name.len() {
        assert(kept.len() != name@.len());
        return false;
    }
    let mut matched: usize = 0;
    while matched < name.len()
        invariant
            start <= end <= chars.len(),
            end - start == name.len(),
            matched <= name.len(),
            kept == chars@.subrange(start as int, end as int),
            stripped(contents@) == kept,
            name@ == "America/Sao_Paulo"@,
            forall|i: int| 0 <= i < matched ==> chars@[start + i] == #[trigger] name@[i],
        decreases name.len() - matched,
    {
        if chars[start + matched] != name[matched] {
            assert(kept[matched as int] != name@[matched as int]);
            return false;
        }
        matched = matched + 1;
    }
    assert(kept =~= name@);
    true
}

/// Resolves the local offset, in seconds, from what is known of the zone
/// file.
pub fn resolve_offset(probe: &ZoneProbe) -> (offset: i32)
    ensures
        offset == offset_of(*probe),
{
    match probe {
        ZoneProbe::NotConsulted => LOCAL_OFFSET_SECONDS,
        ZoneProbe::Unreadable => 0,
        ZoneProbe::Contents(text) => if is_local_zone(text.as_str()) {
            LOCAL_OFFSET_SECONDS
        } else {
            0
        },
    }
}

} // verus!
