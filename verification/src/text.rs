//! Conversions between byte offsets, spans and editor positions, and documentation comments.

use vstd::prelude::*;

use ropey::Rope;

use vstd::string::StringExecFns;

use crate::chars::{
    len_utf16, len_utf8, to_chars, to_text, trim, trim_end, trim_end_of, trim_of, utf16_len,
    utf8_len,
};
use crate::error::{conversion_failed, LspError};
use crate::protocol::Position;
use crate::rope::{
    byte_at_char, byte_slice, char_at_byte, line_at, line_count, line_end, line_start, line_text,
    on_boundary, rope_byte_slice, rope_byte_to_line, rope_chars, rope_len_bytes, rope_line,
    rope_line_to_byte, starts_line,
};

verus! {

/// The bytes from `start` up to `end` of the source with number `file_id`.
#[derive(Clone, Copy, Debug, PartialEq, Eq, Structural)]
pub struct Span {
    pub file_id: usize,
    pub start: usize,
    pub end: usize,
}

impl Span {
    pub fn new(file_id: usize, start: usize, end: usize) -> (r: Span)
        requires
            start <= end,
        ensures
            r == (Span { file_id, start, end }),
    {
        Span { file_id, start, end }
    }
}

/// Whether `b` lies inside `a`, in the same source.
pub open spec fn encloses(a: Span, b: Span) -> bool {
    a.file_id == b.file_id && a.start <= b.start && b.end <= a.end
}

pub fn span_contains(a: &Span, b: &Span) -> (r: bool)
    ensures
        r == encloses(*a, *b),
{
    a.file_id == b.file_id && a.start <= b.start && a.end >= b.end
}

/// A span encloses itself, what its enclosed spans enclose, and no other span that encloses it.
pub proof fn law_encloses_is_an_order(a: Span, b: Span, c: Span)
    ensures
        encloses(a, a),
        encloses(a, b) && encloses(b, c) ==> encloses(a, c),
        encloses(a, b) && encloses(b, a) ==> a == b,
{
}

/// The character that holds a byte starts at or before it and ends behind it.
pub proof fn lemma_char_at_byte(text: Seq<char>, offset: nat)
    ensures
        0 <= char_at_byte(text, offset) <= text.len(),
        byte_at_char(text, char_at_byte(text, offset)) <= offset,
        char_at_byte(text, offset) < text.len() ==> offset < byte_at_char(
            text,
            char_at_byte(text, offset) + 1,
        ),
    decreases text.len(),
{
    assert(text.take(text.len() as int) == text);
    if text.len() == 0 || utf8_len(text) <= offset {
    } else {
        let rest = text.drop_last();
        lemma_char_at_byte(rest, offset);
        let i = char_at_byte(rest, offset);
        assert(rest.take(i) == text.take(i));
        if i < rest.len() {
            assert(rest.take(i + 1) == text.take(i + 1));
        } else {
            assert(text.take(i + 1) == text);
        }
    }
}

/// Byte offsets and indices at boundaries determine each other.
pub proof fn lemma_byte_at_char(text: Seq<char>, i: int)
    requires
        0 <= i <= text.len(),
    ensures
        char_at_byte(text, byte_at_char(text, i)) == i,
        on_boundary(text, byte_at_char(text, i)),
        byte_at_char(text, i) <= utf8_len(text),
{
    let b = byte_at_char(text, i);
    let k = char_at_byte(text, b);
    lemma_char_at_byte(text, b);
    if k < i {
        crate::chars::lemma_utf8_len_take(text, k + 1, i);
    } else if k > i {
        crate::chars::lemma_utf8_len_take(text, i, k);
    }
    assert(text.take(text.len() as int) == text);
    crate::chars::lemma_utf8_len_take(text, i, text.len() as int);
}

/// The part of a text between two offsets is as long as they are apart.
pub proof fn lemma_slice_length(text: Seq<char>, start: nat, end: nat)
    requires
        byte_slice(text, start, end) is Some,
    ensures
        char_at_byte(text, start) <= char_at_byte(text, end),
        utf8_len(byte_slice(text, start, end)->0) == end - start,
{
    lemma_char_at_byte(text, start);
    lemma_char_at_byte(text, end);
    let i = char_at_byte(text, start);
    let j = char_at_byte(text, end);
    if i > j {
        crate::chars::lemma_utf8_len_take(text, j, i);
    } else {
        crate::chars::lemma_utf8_len_take(text, i, j);
    }
}

/// A part of a part of a text is a part of the text.
pub proof fn lemma_inner_slice(text: Seq<char>, from: nat, to: nat, start: nat, end: nat)
    requires
        byte_slice(text, from, to) is Some,
        byte_slice(byte_slice(text, from, to)->0, start, end) is Some,
    ensures
        byte_slice(text, from + start, from + end) == byte_slice(
            byte_slice(text, from, to)->0,
            start,
            end,
        ),
{
    let part = byte_slice(text, from, to)->0;
    lemma_slice_length(text, from, to);
    lemma_slice_length(part, start, end);
    lemma_char_at_byte(text, from);
    lemma_char_at_byte(text, to);
    lemma_char_at_byte(part, start);
    lemma_char_at_byte(part, end);
    let i = char_at_byte(text, from);
    let a = char_at_byte(part, start);
    let b = char_at_byte(part, end);
    assert(text.take(i + a) == text.take(i) + part.take(a));
    assert(text.take(i + b) == text.take(i) + part.take(b));
    crate::chars::lemma_utf8_len_concat(text.take(i), part.take(a));
    crate::chars::lemma_utf8_len_concat(text.take(i), part.take(b));
    lemma_byte_at_char(text, i + a);
    lemma_byte_at_char(text, i + b);
    assert(text.subrange(i + a, i + b) == part.subrange(a, b));
}

/// Later indices stand on later lines, or on the same one.
pub proof fn lemma_line_at_monotonic(text: Seq<char>, i: int, j: int)
    requires
        i <= j,
    ensures
        line_at(text, i) <= line_at(text, j),
    decreases j - i,
{
    if i < j {
        lemma_line_at_monotonic(text, i, j - 1);
    }
}

/// Only one line starts at an index, and a line starts at only one index.
pub proof fn lemma_line_start_unique(text: Seq<char>, i: int, j: int)
    requires
        0 <= i <= text.len(),
        0 <= j <= text.len(),
        starts_line(text, i),
        starts_line(text, j),
        line_at(text, i) == line_at(text, j),
    ensures
        i == j,
{
    if i < j {
        lemma_line_at_monotonic(text, i, j - 1);
    } else if j < i {
        lemma_line_at_monotonic(text, j, i - 1);
    }
}

/// The line of an index starts at or before it.
proof fn lemma_line_start_before(text: Seq<char>, i: int) -> (s: int)
    requires
        0 <= i <= text.len(),
    ensures
        0 <= s <= i,
        starts_line(text, s),
        line_at(text, s) == line_at(text, i),
    decreases i,
{
    if starts_line(text, i) {
        i
    } else {
        lemma_line_start_before(text, i - 1)
    }
}

/// The line of an index starts at or before it and ends at or behind it; the end is behind it but
/// at the end of the text.
pub proof fn lemma_line_bounds(text: Seq<char>, i: int)
    requires
        0 <= i <= text.len(),
    ensures
        line_at(text, i) < line_count(text),
        0 <= line_start(text, line_at(text, i)) <= i,
        starts_line(text, line_start(text, line_at(text, i))),
        line_at(text, line_start(text, line_at(text, i))) == line_at(text, i),
        i <= line_end(text, line_at(text, i)) <= text.len(),
        i < text.len() ==> i < line_end(text, line_at(text, i)),
{
    let line = line_at(text, i);
    lemma_line_at_monotonic(text, i, text.len() as int);
    let s = lemma_line_start_before(text, i);
    lemma_line_start_unique(text, s, line_start(text, line));
    if line + 1 < line_count(text) {
        lemma_line_exists(text, line + 1, text.len() as int);
        let e = line_start(text, line + 1);
        if e <= i {
            lemma_line_at_monotonic(text, e, i);
        }
    }
}

/// Every line up to that of `i` starts somewhere at or before `i`.
proof fn lemma_line_exists(text: Seq<char>, line: nat, i: int)
    requires
        0 <= i <= text.len(),
        line <= line_at(text, i),
    ensures
        0 <= line_start(text, line) <= i,
        starts_line(text, line_start(text, line)),
        line_at(text, line_start(text, line)) == line,
    decreases i,
{
    if line == line_at(text, i) {
        let s = lemma_line_start_before(text, i);
        lemma_line_start_unique(text, s, line_start(text, line));
    } else {
        lemma_line_exists(text, line, i - 1);
    }
}

/// The position of index `i`: its line, and the UTF-16 units between the line's start and it.
pub open spec fn position_of_char(text: Seq<char>, i: int) -> (nat, nat) {
    let line = line_at(text, i);
    (line, utf16_len(text.subrange(line_start(text, line), i)))
}

/// The position of a byte offset: there is one for each offset on a boundary of the text, as far as
/// line and column fit in 32 bits.
pub open spec fn position_of_offset(text: Seq<char>, offset: nat) -> Option<Position> {
    let (line, character) = position_of_char(text, char_at_byte(text, offset));
    if offset <= utf8_len(text) && on_boundary(text, offset) && line <= u32::MAX && character
        <= u32::MAX {
        Some(Position { line: line as u32, character: character as u32 })
    } else {
        None
    }
}

/// What is said of an offset without a position.
pub open spec fn offset_failure() -> Seq<char> {
    "Offset to position"@
}

/// The UTF-16 length of `chars`.
pub(crate) fn utf16_count(chars: &[char]) -> (n: usize)
    requires
        utf16_len(chars@) <= usize::MAX,
    ensures
        n == utf16_len(chars@),
{
    let mut n: usize = 0;
    let mut i: usize = 0;
    assert(chars@.take(chars@.len() as int) == chars@);
    while i < chars.len()
        invariant
            i <= chars@.len(),
            n == utf16_len(chars@.take(i as int)),
            utf16_len(chars@) <= usize::MAX,
            chars@.take(chars@.len() as int) == chars@,
        decreases chars@.len() - i,
    {
        proof {
            crate::chars::lemma_utf16_len_take(chars@, i + 1, chars@.len() as int);
            assert(chars@.take(i + 1).drop_last() == chars@.take(i as int));
        }
        n = n + len_utf16(chars[i]);
        i = i + 1;
    }
    n
}

/// Convert a byte offset to a position.
///
/// The column counts UTF-16 code units, which is what editors count unless they ask otherwise.
pub fn offset_to_position(offset: usize, rope: &Rope) -> (r: Result<Position, LspError>)
    ensures
        match r {
            Ok(position) => position_of_offset(rope_chars(*rope), offset as nat) == Some(position),
            Err(error) => position_of_offset(rope_chars(*rope), offset as nat) is None
                && conversion_failed(error, offset_failure()),
        },
{
    let ghost text = rope_chars(*rope);
    let line: usize = match rope_byte_to_line(rope, offset) {
        Some(line) => line,
        None => return Err(LspError::ConversionFailed("Offset to position".to_owned())),
    };
    let ghost i = char_at_byte(text, offset as nat);
    proof {
        lemma_char_at_byte(text, offset as nat);
        lemma_line_bounds(text, i);
    }
    let line_start_byte: usize = match rope_line_to_byte(rope, line) {
        Some(start) => start,
        None => return Err(LspError::ConversionFailed("Offset to position".to_owned())),
    };
    proof {
        let start = line_start(text, line as nat);
        crate::chars::lemma_utf8_len_take(text, start, i);
        lemma_byte_at_char(text, start);
    }
    let prefix: String = match rope_byte_slice(rope, line_start_byte, offset) {
        Some(prefix) => prefix,
        None => return Err(LspError::ConversionFailed("Offset to position".to_owned())),
    };
    let size: usize = rope_len_bytes(rope);
    proof {
        crate::chars::lemma_utf16_within_utf8(prefix@);
        assert(text.take(text.len() as int) == text);
        let start = line_start(text, line as nat);
        crate::chars::lemma_utf8_len_take(text, start, i);
        crate::chars::lemma_utf8_len_take(text, i, text.len() as int);
    }
    let character: usize = utf16_count(to_chars(prefix.as_str()).as_slice());
    if line > u32::MAX as usize || character > u32::MAX as usize {
        return Err(LspError::ConversionFailed("Offset to position".to_owned()));
    }
    Ok(Position::new(line as u32, character as u32))
}

/// The index of the character that holds the UTF-16 unit `unit`, or the length of the text behind
/// its end.
pub open spec fn char_at_unit(text: Seq<char>, unit: nat) -> int
    decreases text.len(),
{
    if text.len() == 0 || utf16_len(text) <= unit {
        text.len() as int
    } else {
        char_at_unit(text.drop_last(), unit)
    }
}

/// Whether a UTF-16 unit lies between two characters of `text`, or at one of its ends.
pub open spec fn on_unit_boundary(text: Seq<char>, unit: nat) -> bool {
    utf16_len(text.take(char_at_unit(text, unit))) == unit
}

/// The character that holds a unit starts at or before it and ends behind it.
pub proof fn lemma_char_at_unit(text: Seq<char>, unit: nat)
    ensures
        0 <= char_at_unit(text, unit) <= text.len(),
        utf16_len(text.take(char_at_unit(text, unit))) <= unit,
        char_at_unit(text, unit) < text.len() ==> unit < utf16_len(
            text.take(char_at_unit(text, unit) + 1),
        ),
    decreases text.len(),
{
    assert(text.take(text.len() as int) == text);
    if text.len() == 0 || utf16_len(text) <= unit {
    } else {
        let rest = text.drop_last();
        lemma_char_at_unit(rest, unit);
        let i = char_at_unit(rest, unit);
        assert(rest.take(i) == text.take(i));
        if i < rest.len() {
            assert(rest.take(i + 1) == text.take(i + 1));
        } else {
            assert(text.take(i + 1) == text);
        }
    }
}

/// A prefix of a text ends at the index that its UTF-16 length gives.
pub proof fn lemma_unit_at_char(text: Seq<char>, i: int)
    requires
        0 <= i <= text.len(),
    ensures
        char_at_unit(text, utf16_len(text.take(i))) == i,
{
    let u = utf16_len(text.take(i));
    let k = char_at_unit(text, u);
    lemma_char_at_unit(text, u);
    if k < i {
        crate::chars::lemma_utf16_len_take(text, k + 1, i);
    } else if k > i {
        crate::chars::lemma_utf16_len_take(text, i, k);
    }
}

/// The byte offset of a position: there is one where the line exists and the column lies on a
/// boundary of it, its line break included.
pub open spec fn offset_of_position(text: Seq<char>, position: Position) -> Option<nat> {
    let line = position.line as nat;
    let unit = position.character as nat;
    if line < line_count(text) && on_unit_boundary(line_text(text, line), unit) {
        Some(
            byte_at_char(text, line_start(text, line) + char_at_unit(line_text(text, line), unit)),
        )
    } else {
        None
    }
}

/// Whether a position names a unit inside of a character: one half of a surrogate pair.
pub open spec fn splits_character(text: Seq<char>, position: Position) -> bool {
    let line = position.line as nat;
    let unit = position.character as nat;
    line < line_count(text) && unit < utf16_len(line_text(text, line)) && !on_unit_boundary(
        line_text(text, line),
        unit,
    )
}

/// What is said of a position without an offset.
pub open spec fn position_failure(text: Seq<char>, position: Position) -> Seq<char> {
    if splits_character(text, position) {
        "Position points inside a UTF-16 code unit sequence"@
    } else {
        "Position to offset"@
    }
}

/// Convert a position to a byte offset.
pub fn position_to_offset(position: Position, rope: &Rope) -> (r: Result<usize, LspError>)
    ensures
        match r {
            Ok(offset) => offset_of_position(rope_chars(*rope), position) == Some(offset as nat),
            Err(error) => {
                &&& offset_of_position(rope_chars(*rope), position) is None
                &&& conversion_failed(error, position_failure(rope_chars(*rope), position))
            },
        },
{
    let ghost text = rope_chars(*rope);
    let line_index: usize = position.line as usize;
    let target: usize = position.character as usize;
    let line: String = match rope_line(rope, line_index) {
        Some(line) => line,
        None => return Err(LspError::ConversionFailed("Position to offset".to_owned())),
    };
    let start: usize = match rope_line_to_byte(rope, line_index) {
        Some(start) => start,
        None => return Err(LspError::ConversionFailed("Position to offset".to_owned())),
    };
    let size: usize = rope_len_bytes(rope);
    let chars: Vec<char> = to_chars(line.as_str());
    let ghost from = line_start(text, line_index as nat);
    proof {
        lemma_line_exists(text, line_index as nat, text.len() as int);
        lemma_line_bounds(text, from);
        assert(text.take(text.len() as int) == text);
        assert(chars@.take(chars@.len() as int) == chars@);
    }
    let mut unit: usize = 0;
    let mut byte: usize = 0;
    let mut i: usize = 0;
    // Editors count UTF-16 code units, the rope counts bytes: walk the line to the wanted unit.
    while i < chars.len()
        invariant
            chars@ == line_text(text, line_index as nat),
            from == line_start(text, line_index as nat),
            text == rope_chars(*rope),
            line_index == position.line,
            target == position.character,
            line_index < line_count(text),
            0 <= from <= from + chars@.len() <= text.len(),
            chars@ == text.subrange(from, from + chars@.len()),
            size == utf8_len(text),
            start == byte_at_char(text, from),
            i <= chars@.len(),
            unit == utf16_len(chars@.take(i as int)),
            byte == utf8_len(chars@.take(i as int)),
            start + byte == byte_at_char(text, from + i),
            unit <= target,
            text.take(text.len() as int) == text,
            chars@.take(chars@.len() as int) == chars@,
        decreases chars@.len() - i,
    {
        if unit == target {
            proof {
                lemma_unit_at_char(chars@, i as int);
                crate::chars::lemma_utf8_len_take(text, from + i, text.len() as int);
            }
            return Ok(start + byte);
        }
        let ghost at = i as int;
        proof {
            assert(chars@.take(at + 1).drop_last() == chars@.take(at));
            assert(text.take(from + at + 1).drop_last() == text.take(from + at));
            assert(text[from + at] == chars@[at]);
            crate::chars::lemma_utf8_len_take(text, from + at + 1, text.len() as int);
            crate::chars::lemma_utf16_within_utf8(chars@.take(at + 1));
        }
        let width: usize = len_utf16(chars[i]);
        // A span ends between characters, so a position inside of one has no offset.
        if width > target - unit {
            proof {
                lemma_char_at_unit(chars@, target as nat);
                let k = char_at_unit(chars@, target as nat);
                if k < at {
                    crate::chars::lemma_utf16_len_take(chars@, k + 1, at);
                } else if k > at {
                    crate::chars::lemma_utf16_len_take(chars@, at + 1, k);
                }
                crate::chars::lemma_utf16_len_take(chars@, at + 1, chars@.len() as int);
            }
            return Err(
                LspError::ConversionFailed(
                    "Position points inside a UTF-16 code unit sequence".to_owned(),
                ),
            );
        }
        unit = unit + width;
        byte = byte + len_utf8(chars[i]);
        i = i + 1;
    }
    proof {
        lemma_unit_at_char(chars@, i as int);
        lemma_char_at_unit(chars@, target as nat);
        crate::chars::lemma_utf8_len_take(text, from + i, text.len() as int);
    }
    // The cursor may stand at the end of the line.
    if unit == target {
        Ok(start + byte)
    } else {
        Err(LspError::ConversionFailed("Position to offset".to_owned()))
    }
}

/// Converting an offset to a position and back gives the offset.
pub proof fn law_offset_round_trip(text: Seq<char>, offset: nat, position: Position)
    requires
        position_of_offset(text, offset) == Some(position),
    ensures
        offset_of_position(text, position) == Some(offset),
{
    let i = char_at_byte(text, offset);
    lemma_char_at_byte(text, offset);
    lemma_line_bounds(text, i);
    let line = line_at(text, i);
    let start = line_start(text, line);
    let content = line_text(text, line);
    assert(content.take(i - start) == text.subrange(start, i));
    lemma_unit_at_char(content, i - start);
}

/// Converting a position to an offset and back gives the position, unless the position stands
/// behind the break that ends its line: that one is the beginning of the next line.
pub proof fn law_position_round_trip(text: Seq<char>, position: Position, offset: nat)
    requires
        offset_of_position(text, position) == Some(offset),
        position.character < utf16_len(line_text(text, position.line as nat)) || position.line + 1
            == line_count(text),
    ensures
        position_of_offset(text, offset) == Some(position),
{
    let line = position.line as nat;
    let content = line_text(text, line);
    let k = char_at_unit(content, position.character as nat);
    lemma_char_at_unit(content, position.character as nat);
    lemma_line_exists(text, line, text.len() as int);
    let start = line_start(text, line);
    lemma_line_bounds(text, start);
    let i = start + k;
    assert(content.take(content.len() as int) == content);
    lemma_line_at_monotonic(text, start, i);
    lemma_line_bounds(text, i);
    assert(line_at(text, i) == line) by {
        if line_at(text, i) > line {
            lemma_line_exists(text, line + 1, i);
            lemma_line_at_monotonic(text, i, text.len() as int);
            crate::chars::lemma_utf16_len_take(content, k, content.len() as int);
        }
    }
    lemma_byte_at_char(text, i);
    assert(content.take(k) == text.subrange(start, i));
}

/// Positions come in the order of their offsets.
pub proof fn law_positions_follow_offsets(
    text: Seq<char>,
    a: nat,
    b: nat,
    first: Position,
    second: Position,
)
    requires
        a <= b,
        position_of_offset(text, a) == Some(first),
        position_of_offset(text, b) == Some(second),
    ensures
        crate::protocol::position_le(first, second),
{
    let i = char_at_byte(text, a);
    let j = char_at_byte(text, b);
    lemma_char_at_byte(text, a);
    lemma_char_at_byte(text, b);
    if j < i {
        crate::chars::lemma_utf8_len_take(text, j, i);
    }
    lemma_line_at_monotonic(text, i, j);
    lemma_line_bounds(text, i);
    lemma_line_bounds(text, j);
    if line_at(text, i) == line_at(text, j) {
        let start = line_start(text, line_at(text, i));
        let longer = text.subrange(start, j);
        assert(longer.take(i - start) == text.subrange(start, i));
        assert(longer.take(j - start) == longer);
        crate::chars::lemma_utf16_len_take(longer, i - start, j - start);
    }
}

/// Convert a span to the positions of its ends in the text of its source.
pub fn span_to_positions(span: &Span, rope: &Rope) -> (r: Result<(Position, Position), LspError>)
    ensures
        match r {
            Ok((start, end)) => {
                &&& position_of_offset(rope_chars(*rope), span.start as nat) == Some(start)
                &&& position_of_offset(rope_chars(*rope), span.end as nat) == Some(end)
            },
            Err(error) => {
                &&& conversion_failed(error, offset_failure())
                &&& position_of_offset(rope_chars(*rope), span.start as nat) is None
                    || position_of_offset(rope_chars(*rope), span.end as nat) is None
            },
        },
{
    let start: Position = match offset_to_position(span.start, rope) {
        Ok(start) => start,
        Err(error) => return Err(error),
    };
    match offset_to_position(span.end, rope) {
        Ok(end) => Ok((start, end)),
        Err(error) => Err(error),
    }
}

/// Convert a position to the empty span at it, in the root source.
pub fn position_to_span(position: Position, rope: &Rope) -> (r: Result<Span, LspError>)
    ensures
        match r {
            Ok(span) => {
                &&& span.file_id == 0
                &&& span.start == span.end
                &&& offset_of_position(rope_chars(*rope), position) == Some(span.start as nat)
            },
            Err(error) => offset_of_position(rope_chars(*rope), position) is None
                && conversion_failed(error, position_failure(rope_chars(*rope), position)),
        },
{
    match position_to_offset(position, rope) {
        Ok(offset) => Ok(Span::new(0, offset, offset)),
        Err(error) => Err(error),
    }
}

/// Whether a line is a documentation comment.
pub open spec fn is_doc_line(line: Seq<char>) -> bool {
    line.len() >= 3 && line[0] == '/' && line[1] == '/' && line[2] == '/'
}

/// Whether a line exists and is a documentation comment.
pub open spec fn doc_line_at(text: Seq<char>, line: nat) -> bool {
    line < line_count(text) && is_doc_line(line_text(text, line))
}

/// The documentation comments that stand right above a line, from top to bottom, each without its
/// slashes and trailing white space.
pub open spec fn doc_lines(text: Seq<char>, line: nat) -> Seq<Seq<char>>
    decreases line,
{
    if line > 0 && doc_line_at(text, (line - 1) as nat) {
        doc_lines(text, (line - 1) as nat).push(
            trim_end_of(line_text(text, (line - 1) as nat).skip(3)),
        )
    } else {
        Seq::empty()
    }
}

/// Whether a line begins a Markdown block of its own, so that it is not joined to a paragraph.
pub open spec fn begins_block(line: Seq<char>) -> bool {
    ||| line.len() == 0
    ||| line[0] == '#'
    ||| line[0] == '-'
    ||| line[0] == '*'
    ||| line[0] == '>'
    ||| line.len() >= 3 && line[0] == '`' && line[1] == '`' && line[2] == '`'
    ||| line.len() >= 4 && line[0] == ' ' && line[1] == ' ' && line[2] == ' ' && line[3] == ' '
}

/// Lines joined to Markdown: a line goes on a paragraph behind a space, and begins a new line
/// before or behind a block.
pub open spec fn join_doc_lines(lines: Seq<Seq<char>>) -> Seq<char>
    decreases lines.len(),
{
    if lines.len() == 0 {
        Seq::empty()
    } else {
        let before = join_doc_lines(lines.drop_last());
        let line = trim_of(lines.last());
        if before.len() == 0 {
            line
        } else if lines.len() > 1 && !begins_block(trim_of(lines[lines.len() - 2]))
            && !begins_block(line) {
            before.push(' ') + line
        } else {
            before.push('\n') + line
        }
    }
}

/// Whether `chars` begin with three slashes.
fn has_doc_slashes(chars: &[char]) -> (r: bool)
    ensures
        r == is_doc_line(chars@),
{
    chars.len() >= 3 && chars[0] == '/' && chars[1] == '/' && chars[2] == '/'
}

/// Whether a trimmed line begins a Markdown block.
fn is_block_line(line: &[char]) -> (r: bool)
    ensures
        r == begins_block(line@),
{
    if line.len() == 0 {
        return true;
    }
    let c: char = line[0];
    c == '#' || c == '-' || c == '*' || c == '>' || (line.len() >= 3 && c == '`' && line[1] == '`'
        && line[2] == '`') || (line.len() >= 4 && c == ' ' && line[1] == ' ' && line[2] == ' '
        && line[3] == ' ')
}

/// The documentation of what begins on a line: the comments right above it, as Markdown.
pub fn get_comments_from_lines(line: u32, rope: &Rope) -> (r: String)
    ensures
        r@ == join_doc_lines(doc_lines(rope_chars(*rope), line as nat)),
{
    let ghost text = rope_chars(*rope);
    let mut first: u32 = line;
    let mut searching: bool = true;
    while searching && first > 0
        invariant
            text == rope_chars(*rope),
            first <= line,
            forall|k: nat| first <= k < line ==> #[trigger] doc_line_at(text, k),
            !searching ==> doc_lines(text, first as nat) == Seq::<Seq<char>>::empty(),
        decreases first, searching as int,
    {
        match rope_line(rope, (first - 1) as usize) {
            Some(content) if has_doc_slashes(to_chars(content.as_str()).as_slice()) => {
                first = first - 1;
            },
            _ => {
                searching = false;
            },
        }
    }
    assert(doc_lines(text, first as nat) == Seq::<Seq<char>>::empty());
    let mut result: String = String::new();
    let mut previous_is_text: bool = false;
    let mut at: u32 = first;
    while at < line
        invariant
            text == rope_chars(*rope),
            first <= at <= line,
            doc_lines(text, first as nat) == Seq::<Seq<char>>::empty(),
            doc_lines(text, at as nat).len() == at - first,
            forall|k: nat| first <= k < line ==> #[trigger] doc_line_at(text, k),
            result@ == join_doc_lines(doc_lines(text, at as nat)),
            previous_is_text == (at > first && !begins_block(
                trim_of(doc_lines(text, at as nat).last()),
            )),
        decreases line - at,
    {
        assert(doc_line_at(text, at as nat));
        if let Some(content) = rope_line(rope, at as usize) {
            let chars: Vec<char> = to_chars(content.as_str());
            let body: &[char] = trim_end(
                vstd::slice::slice_subrange(chars.as_slice(), 3, chars.len()),
            );
            let trimmed: &[char] = trim(body);
            let block: bool = is_block_line(trimmed);
            let ghost before = doc_lines(text, at as nat);
            proof {
                assert(chars@.subrange(3, chars@.len() as int) == chars@.skip(3));
                let after = doc_lines(text, (at + 1) as nat);
                assert(after == before.push(body@));
                assert(after.drop_last() == before);
                if before.len() > 0 {
                    assert(after[after.len() - 2] == before.last());
                }
            }
            let ghost joined = result@;
            if !result.as_str().is_empty() {
                if previous_is_text && !block {
                    result.push(' ');
                } else {
                    result.push('\n');
                }
            }
            result.append(to_text(trimmed).as_str());
            previous_is_text = trimmed.len() > 0 && !block;
        }
        at = at + 1;
    }
    result
}

} // verus!
