//! What holds of positions and of documentation comments in every text.

use vstd::prelude::*;

use crate::chars::{trim_end_of, trim_of, utf16_len, utf8_len};
use crate::protocol::Position;
use crate::rope::{
    byte_slice, char_at_byte, line_at, line_count, line_start, line_text, starts_line,
};
use crate::text::{
    doc_lines, join_doc_lines, lemma_byte_at_char, lemma_char_at_byte, lemma_line_bounds,
    lemma_line_start_unique, offset_of_position, position_failure, position_of_offset,
};

verus! {

/// The position behind some characters tells the line that they lead to, and how many UTF-16 units
/// stand between the start of that line and there.
pub proof fn law_position_counts_units_on_its_line(text: Seq<char>, i: int, start: int)
    requires
        0 <= start <= i <= text.len(),
        starts_line(text, start),
        line_at(text, start) == line_at(text, i),
        line_at(text, i) <= u32::MAX,
        utf16_len(text.subrange(start, i)) <= u32::MAX,
    ensures
        position_of_offset(text, utf8_len(text.take(i))) == Some(
            Position {
                line: line_at(text, i) as u32,
                character: utf16_len(text.subrange(start, i)) as u32,
            },
        ),
{
    lemma_byte_at_char(text, i);
    lemma_line_bounds(text, i);
    lemma_line_start_unique(text, start, line_start(text, line_at(text, i)));
}

/// Only an offset between two characters, or at an end of the text, has a position.
pub proof fn law_only_boundaries_have_positions(text: Seq<char>, offset: nat)
    requires
        position_of_offset(text, offset) is Some,
    ensures
        exists|i: int| 0 <= i <= text.len() && offset == utf8_len(#[trigger] text.take(i)),
{
    let i = char_at_byte(text, offset);
    lemma_char_at_byte(text, offset);
    assert(offset == utf8_len(text.take(i)));
}

/// In a text without line breaks every position is on the first line, and its column is the number
/// of UTF-16 units before it.
pub proof fn law_positions_on_one_line(text: Seq<char>, i: int)
    requires
        0 <= i <= text.len(),
        forall|k: int| 0 <= k < text.len() ==> !crate::rope::breaks_line(#[trigger] text[k]),
        utf16_len(text.take(i)) <= u32::MAX,
    ensures
        position_of_offset(text, utf8_len(text.take(i))) == Some(
            Position { line: 0, character: utf16_len(text.take(i)) as u32 },
        ),
        offset_of_position(
            text,
            Position { line: 0, character: utf16_len(text.take(i)) as u32 },
        ) == Some(utf8_len(text.take(i))),
{
    lemma_one_line(text, i);
    assert(text.subrange(0, i) =~= text.take(i));
    law_position_counts_units_on_its_line(text, i, 0);
    crate::text::law_offset_round_trip(
        text,
        utf8_len(text.take(i)),
        Position { line: 0, character: utf16_len(text.take(i)) as u32 },
    );
}

proof fn lemma_one_line(text: Seq<char>, i: int)
    requires
        0 <= i <= text.len(),
        forall|k: int| 0 <= k < text.len() ==> !crate::rope::breaks_line(#[trigger] text[k]),
    ensures
        line_at(text, i) == 0,
    decreases i,
{
    if i > 0 {
        lemma_one_line(text, i - 1);
        assert(!crate::rope::breaks_line(text[i - 1]));
    }
}

/// The part of a text between two boundaries is what stands between them.
pub proof fn law_slice_is_what_stands_between(
    before: Seq<char>,
    part: Seq<char>,
    behind: Seq<char>,
)
    ensures
        byte_slice(
            before + part + behind,
            utf8_len(before),
            utf8_len(before) + utf8_len(part),
        ) == Some(part),
{
    let text = before + part + behind;
    let i = before.len() as int;
    let j = i + part.len();
    assert(text.take(i) =~= before);
    assert(text.take(j) =~= before + part);
    crate::chars::lemma_utf8_len_concat(before, part);
    lemma_byte_at_char(text, i);
    lemma_byte_at_char(text, j);
    assert(text.subrange(i, j) =~= part);
}

/// Whether a line begins with three slashes.
pub open spec fn has_three_slashes(line: Seq<char>) -> bool {
    line.len() >= 3 && line[0] == '/' && line[1] == '/' && line[2] == '/'
}

/// The documentation of a line are the lines with three slashes right above it, without gaps, each
/// without its slashes and without the white space at its end.
pub proof fn law_comments_above_are_documentation(text: Seq<char>, line: nat)
    ensures
        doc_lines(text, 0).len() == 0,
        line < line_count(text) && has_three_slashes(line_text(text, line)) ==> doc_lines(
            text,
            line + 1,
        ) == doc_lines(text, line).push(trim_end_of(line_text(text, line).skip(3))),
        line < line_count(text) && !has_three_slashes(line_text(text, line)) ==> doc_lines(
            text,
            line + 1,
        ).len() == 0,
{
}

/// Whether a line stands for itself in Markdown: an empty one, a heading, a list item, a quotation,
/// a fence or indented code.
pub open spec fn stands_alone(line: Seq<char>) -> bool {
    line.len() == 0 || line[0] == '#' || line[0] == '-' || line[0] == '*' || line[0] == '>' || (
    line.len() >= 3 && line[0] == '`' && line[1] == '`' && line[2] == '`') || (line.len() >= 4
        && line[0] == ' ' && line[1] == ' ' && line[2] == ' ' && line[3] == ' ')
}

/// Lines of documentation go on a paragraph behind a space. A line that stands for itself, and one
/// behind such a line, begins a new line.
pub proof fn law_documentation_is_joined(lines: Seq<Seq<char>>, line: Seq<char>)
    ensures
        join_doc_lines(Seq::empty()).len() == 0,
        join_doc_lines(lines).len() == 0 ==> join_doc_lines(lines.push(line)) == trim_of(line),
        join_doc_lines(lines).len() > 0 && !stands_alone(trim_of(lines.last())) && !stands_alone(
            trim_of(line),
        ) ==> join_doc_lines(lines.push(line)) == join_doc_lines(lines) + seq![' '] + trim_of(line),
        join_doc_lines(lines).len() > 0 && (stands_alone(trim_of(lines.last())) || stands_alone(
            trim_of(line),
        )) ==> join_doc_lines(lines.push(line)) == join_doc_lines(lines) + seq!['\n'] + trim_of(
            line,
        ),
{
    let all = lines.push(line);
    assert(all.drop_last() =~= lines);
    let before = join_doc_lines(lines);
    assert(before.push(' ') =~= before + seq![' ']);
    assert(before.push('\n') =~= before + seq!['\n']);
    if lines.len() > 0 {
        assert(all[all.len() - 2] == lines.last());
    }
}

/// Trimming takes off the white space at the ends and nothing else.
pub proof fn law_trimming_keeps_what_is_written(white: Seq<char>, text: Seq<char>, more: Seq<char>)
    requires
        text.len() > 0,
        !crate::chars::is_white(text[0]),
        !crate::chars::is_white(text.last()),
        forall|k: int| 0 <= k < white.len() ==> crate::chars::is_white(#[trigger] white[k]),
        forall|k: int| 0 <= k < more.len() ==> crate::chars::is_white(#[trigger] more[k]),
    ensures
        trim_end_of(text + more) == text,
        trim_of(white + text + more) == text,
        trim_of(white).len() == 0,
    decreases white.len(), more.len(),
{
    lemma_trim_end(text, more);
    lemma_trim_start(white, text + more);
    assert(white + text + more =~= white + (text + more));
    lemma_trim_white(white);
}

/// Of white space nothing is left when it is trimmed.
pub proof fn law_white_space_is_trimmed(white: Seq<char>)
    requires
        forall|k: int| 0 <= k < white.len() ==> crate::chars::is_white(#[trigger] white[k]),
    ensures
        trim_of(white).len() == 0,
{
    lemma_trim_white(white);
}

proof fn lemma_trim_end(text: Seq<char>, more: Seq<char>)
    requires
        text.len() > 0,
        !crate::chars::is_white(text.last()),
        forall|k: int| 0 <= k < more.len() ==> crate::chars::is_white(#[trigger] more[k]),
    ensures
        trim_end_of(text + more) == text,
    decreases more.len(),
{
    if more.len() > 0 {
        let rest = more.drop_last();
        assert(crate::chars::is_white(more[more.len() - 1]));
        assert((text + more).drop_last() =~= text + rest);
        assert forall|k: int| 0 <= k < rest.len() implies crate::chars::is_white(
            #[trigger] rest[k],
        ) by {
            assert(rest[k] == more[k]);
        }
        lemma_trim_end(text, rest);
    } else {
        assert(text + more =~= text);
    }
}

proof fn lemma_trim_start(white: Seq<char>, text: Seq<char>)
    requires
        text.len() > 0,
        !crate::chars::is_white(text[0]),
        forall|k: int| 0 <= k < white.len() ==> crate::chars::is_white(#[trigger] white[k]),
    ensures
        crate::chars::trim_start_of(white + text) == text,
    decreases white.len(),
{
    if white.len() > 0 {
        let rest = white.drop_first();
        assert(crate::chars::is_white(white[0]));
        assert((white + text).drop_first() =~= rest + text);
        assert forall|k: int| 0 <= k < rest.len() implies crate::chars::is_white(
            #[trigger] rest[k],
        ) by {
            assert(rest[k] == white[k + 1]);
        }
        lemma_trim_start(rest, text);
    } else {
        assert(white + text =~= text);
    }
}

proof fn lemma_trim_white(white: Seq<char>)
    requires
        forall|k: int| 0 <= k < white.len() ==> crate::chars::is_white(#[trigger] white[k]),
    ensures
        crate::chars::trim_start_of(white).len() == 0,
        trim_of(white).len() == 0,
    decreases white.len(),
{
    if white.len() > 0 {
        let rest = white.drop_first();
        assert(crate::chars::is_white(white[0]));
        assert forall|k: int| 0 <= k < rest.len() implies crate::chars::is_white(
            #[trigger] rest[k],
        ) by {
            assert(rest[k] == white[k + 1]);
        }
        lemma_trim_white(rest);
    }
}

/// A position counts one unit for each character up to the sixteenth bit, and two for each one
/// beyond it.
pub proof fn law_units_of_characters(text: Seq<char>, c: char)
    ensures
        utf16_len(Seq::<char>::empty()) == 0,
        (c as u32) <= 0xffff ==> utf16_len(text.push(c)) == utf16_len(text) + 1,
        (c as u32) > 0xffff ==> utf16_len(text.push(c)) == utf16_len(text) + 2,
{
    assert(text.push(c).drop_last() =~= text);
}

/// A position between the two units of a character, on a line or in a place that is not there, has
/// no offset, and what is said of it tells the first from the others.
pub proof fn law_failed_positions_are_told_apart(
    text: Seq<char>,
    position: Position,
    before: Seq<char>,
    c: char,
    behind: Seq<char>,
)
    ensures
        position.line < line_count(text) && line_text(text, position.line as nat) == before.push(c)
            + behind && (c as u32) > 0xffff && position.character == utf16_len(before) + 1 ==> {
            &&& offset_of_position(text, position) is None
            &&& position_failure(text, position)
                == "Position points inside a UTF-16 code unit sequence"@
        },
        position.line >= line_count(text) || position.character > utf16_len(
            line_text(text, position.line as nat),
        ) ==> {
            &&& offset_of_position(text, position) is None
            &&& position_failure(text, position) == "Position to offset"@
        },
{
    let line = line_text(text, position.line as nat);
    let unit = position.character as nat;
    crate::text::lemma_char_at_unit(line, unit);
    if position.line < line_count(text) && line == before.push(c) + behind && (c as u32) > 0xffff
        && unit == utf16_len(before) + 1 {
        let n = before.len() as int;
        let at = crate::text::char_at_unit(line, unit);
        assert(line.take(n) =~= before);
        assert(line.take(n + 1) =~= before.push(c));
        law_units_of_characters(before, c);
        crate::chars::lemma_utf16_len_concat(before.push(c), behind);
        if at <= n {
            crate::chars::lemma_utf16_len_take(line, at, n);
        } else {
            crate::chars::lemma_utf16_len_take(line, n + 1, at);
        }
    }
    if unit > utf16_len(line) {
        assert(line.take(line.len() as int) =~= line);
    }
}

} // verus!
