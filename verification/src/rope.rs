//! The text of a document, held in a rope: its lines and its byte offsets.

use vstd::prelude::*;

use ropey::Rope;

use crate::chars::utf8_len;

verus! {

/// A rope of the `ropey` crate, known by the text it holds ([`rope_chars`]).
#[verifier::external_type_specification]
#[verifier::external_body]
pub struct ExRope(Rope);

/// The text that a rope holds.
pub uninterp spec fn rope_chars(rope: Rope) -> Seq<char>;

/// Whether `c` ends a line: line feed, vertical tab, form feed, carriage return, next line, line
/// separator or paragraph separator.
pub open spec fn breaks_line(c: char) -> bool {
    c == '\n' || c == '\u{b}' || c == '\u{c}' || c == '\r' || c == '\u{85}' || c == '\u{2028}' || c
        == '\u{2029}'
}

/// Whether a line starts at index `i`: at the beginning, and behind each line break. A carriage
/// return and the line feed behind it are one break.
pub open spec fn starts_line(text: Seq<char>, i: int) -> bool {
    i == 0 || (0 < i <= text.len() && breaks_line(text[i - 1]) && !(text[i - 1] == '\r' && i
        < text.len() && text[i] == '\n'))
}

/// The line on which index `i` stands, counted from zero.
pub open spec fn line_at(text: Seq<char>, i: int) -> nat
    decreases i,
{
    if i <= 0 {
        0
    } else if starts_line(text, i) {
        line_at(text, i - 1) + 1
    } else {
        line_at(text, i - 1)
    }
}

/// The number of lines of a text; one that ends in a line break has an empty last line.
pub open spec fn line_count(text: Seq<char>) -> nat {
    line_at(text, text.len() as int) + 1
}

/// The index at which a line starts.
pub open spec fn line_start(text: Seq<char>, line: nat) -> int {
    choose|i: int| 0 <= i <= text.len() && #[trigger] starts_line(text, i) && line_at(text, i) == line
}

/// The index behind a line and its line break.
pub open spec fn line_end(text: Seq<char>, line: nat) -> int {
    if line + 1 < line_count(text) {
        line_start(text, line + 1)
    } else {
        text.len() as int
    }
}

/// A line with its line break.
pub open spec fn line_text(text: Seq<char>, line: nat) -> Seq<char> {
    text.subrange(line_start(text, line), line_end(text, line))
}

/// The index of the character that holds byte `offset`, or the length of the text behind its end.
pub open spec fn char_at_byte(text: Seq<char>, offset: nat) -> int
    decreases text.len(),
{
    if text.len() == 0 || utf8_len(text) <= offset {
        text.len() as int
    } else {
        char_at_byte(text.drop_last(), offset)
    }
}

/// The byte offset of index `i`.
pub open spec fn byte_at_char(text: Seq<char>, i: int) -> nat {
    utf8_len(text.take(i))
}

/// Whether byte `offset` lies between two characters, or at an end of the text.
pub open spec fn on_boundary(text: Seq<char>, offset: nat) -> bool {
    byte_at_char(text, char_at_byte(text, offset)) == offset
}

/// The characters from byte `start` up to byte `end`, where both lie on boundaries of the text.
pub open spec fn byte_slice(text: Seq<char>, start: nat, end: nat) -> Option<Seq<char>> {
    if start <= end <= utf8_len(text) && on_boundary(text, start) && on_boundary(text, end) {
        Some(text.subrange(char_at_byte(text, start), char_at_byte(text, end)))
    } else {
        None
    }
}

/// `Rope::from_str` makes a rope of a text.
#[verifier::external_body]
pub(crate) fn rope_from_str(text: &str) -> (rope: Rope)
    ensures
        rope_chars(rope) == text@,
{
    Rope::from_str(text)
}

/// `Rope::clone` gives a rope with the same text.
#[verifier::external_body]
pub(crate) fn rope_clone(rope: &Rope) -> (r: Rope)
    ensures
        rope_chars(r) == rope_chars(*rope),
{
    rope.clone()
}

/// The `Display` form of a rope is its text.
#[verifier::external_body]
pub(crate) fn rope_text(rope: &Rope) -> (text: String)
    ensures
        text@ == rope_chars(*rope),
{
    rope.to_string()
}

/// `Rope::len_bytes` is the length of the text in bytes.
#[verifier::external_body]
pub(crate) fn rope_len_bytes(rope: &Rope) -> (n: usize)
    ensures
        n == utf8_len(rope_chars(*rope)),
{
    rope.len_bytes()
}

/// `Rope::try_byte_to_line` is the line of the character that holds the byte, and an error behind
/// the end of the text.
#[verifier::external_body]
pub(crate) fn rope_byte_to_line(rope: &Rope, offset: usize) -> (line: Option<usize>)
    ensures
        match line {
            Some(n) => offset <= utf8_len(rope_chars(*rope)) && n == line_at(
                rope_chars(*rope),
                char_at_byte(rope_chars(*rope), offset as nat),
            ),
            None => offset > utf8_len(rope_chars(*rope)),
        },
{
    rope.try_byte_to_line(offset).ok()
}

/// `Rope::try_line_to_byte` is the byte offset at which a line starts, the length of the text for
/// the line behind the last one, and an error further on.
#[verifier::external_body]
pub(crate) fn rope_line_to_byte(rope: &Rope, line: usize) -> (offset: Option<usize>)
    ensures
        match offset {
            Some(n) => line <= line_count(rope_chars(*rope)) && n == (if line == line_count(
                rope_chars(*rope),
            ) {
                utf8_len(rope_chars(*rope))
            } else {
                byte_at_char(rope_chars(*rope), line_start(rope_chars(*rope), line as nat))
            }),
            None => line > line_count(rope_chars(*rope)),
        },
{
    rope.try_line_to_byte(line).ok()
}

/// `Rope::get_line` is a line with its line break, and nothing behind the last line.
#[verifier::external_body]
pub(crate) fn rope_line(rope: &Rope, line: usize) -> (text: Option<String>)
    ensures
        match text {
            Some(t) => line < line_count(rope_chars(*rope)) && t@ == line_text(
                rope_chars(*rope),
                line as nat,
            ),
            None => line >= line_count(rope_chars(*rope)),
        },
{
    rope.get_line(line).map(|slice| slice.to_string())
}

/// `Rope::get_byte_slice` is the text between two byte offsets that lie on boundaries.
#[verifier::external_body]
pub(crate) fn rope_byte_slice(rope: &Rope, start: usize, end: usize) -> (text: Option<String>)
    ensures
        match text {
            Some(t) => byte_slice(rope_chars(*rope), start as nat, end as nat) == Some(t@),
            None => byte_slice(rope_chars(*rope), start as nat, end as nat) is None,
        },
{
    rope.get_byte_slice(start..end).map(|slice| slice.to_string())
}

} // verus!
