//! What holds of every witness file.

use vstd::prelude::*;

use crate::chars::{nth_line, utf16_len, utf8_len};
use crate::protocol::{DiagnosticView, Position, Range};
use crate::witness::{
    decoded_keys, error_position, json_position, key_positions_of, key_tokens, line_feeds,
    members_diagnostics, outline_diagnostics, position_of_key, quoted_keys_of, reading,
    units_before_byte, units_on_line, MemberView, OutlineView,
};

verus! {

/// A diagnostic that says something at one position.
pub open spec fn remark(position: Position, message: Seq<char>) -> DiagnosticView {
    DiagnosticView {
        range: Range { start: position, end: position },
        severity: None,
        source: None,
        message,
        related_information: Seq::empty(),
    }
}

/// Whether the key at an index is the last of a name.
pub open spec fn is_last_key(
    keys: Seq<(Seq<char>, Position)>,
    k: int,
    name: Seq<char>,
) -> bool {
    &&& 0 <= k < keys.len()
    &&& keys[k].0 == name
    &&& forall|l: int| k < l < keys.len() ==> (#[trigger] keys[l]).0 != name
}

/// A key stands where it stands last.
pub proof fn law_last_key_counts(keys: Seq<(Seq<char>, Position)>, k: int, name: Seq<char>)
    ensures
        is_last_key(keys, k, name) ==> position_of_key(keys, name) == Some(keys[k].1),
        (forall|l: int| 0 <= l < keys.len() ==> (#[trigger] keys[l]).0 != name) ==> position_of_key(
            keys,
            name,
        ) is None,
    decreases keys.len(),
{
    if keys.len() > 0 {
        let rest = keys.drop_last();
        let n = rest.len() as int;
        law_last_key_counts(rest, k, name);
        assert(keys.last() == keys[n]);
        if is_last_key(keys, k, name) && k < n {
            assert(keys[n].0 != name);
            assert forall|l: int| k < l < rest.len() implies (#[trigger] rest[l]).0 != name by {
                assert(rest[l] == keys[l]);
            }
        }
        if forall|l: int| 0 <= l < keys.len() ==> (#[trigger] keys[l]).0 != name {
            assert(keys[n].0 != name);
            assert forall|l: int| 0 <= l < rest.len() implies (#[trigger] rest[l]).0 != name by {
                assert(rest[l] == keys[l]);
            }
        }
    }
}

/// Each member of a witness file is reported at its key for exactly what it lacks, in the order of
/// the members: for being no object, for its value and for its type.
pub proof fn law_witness_is_reported_for_what_it_lacks(
    text: Seq<char>,
    members: Seq<MemberView>,
    member: MemberView,
    keys: Seq<(Seq<char>, Position)>,
    k: int,
)
    requires
        is_last_key(keys, k, member.name),
    ensures
        outline_diagnostics(text, OutlineView::Object(Seq::empty()), keys).len() == 0,
        outline_diagnostics(text, OutlineView::Object(members.push(member)), keys)
            == outline_diagnostics(text, OutlineView::Object(members), keys) + (match member.fields {
            None => seq![
                remark(
                    keys[k].1,
                    "Witness '"@ + member.name
                        + "' must be an object with 'value' and 'type' fields"@,
                ),
            ],
            Some(fields) => {
                let value = remark(
                    keys[k].1,
                    "Witness '"@ + member.name + "' is missing required 'value' field"@,
                );
                let ty = remark(
                    keys[k].1,
                    "Witness '"@ + member.name + "' is missing required 'type' field"@,
                );
                match (fields.contains("value"@), fields.contains("type"@)) {
                    (true, true) => Seq::empty(),
                    (true, false) => seq![ty],
                    (false, true) => seq![value],
                    (false, false) => seq![value, ty],
                }
            },
        }),
{
    law_last_key_counts(keys, k, member.name);
    assert(members.push(member).drop_last() =~= members);
    let before = members_diagnostics(keys, members);
    let own = crate::witness::member_diagnostics(keys, member);
    if let Some(fields) = member.fields {
        let value = remark(
            keys[k].1,
            "Witness '"@ + member.name + "' is missing required 'value' field"@,
        );
        let ty = remark(
            keys[k].1,
            "Witness '"@ + member.name + "' is missing required 'type' field"@,
        );
        assert(own =~= match (fields.contains("value"@), fields.contains("type"@)) {
            (true, true) => Seq::<DiagnosticView>::empty(),
            (true, false) => seq![ty],
            (false, true) => seq![value],
            (false, false) => seq![value, ty],
        });
    }
}

/// A text that is no JSON is reported once, at the place that the error names, with what the error
/// says; a text that is no object is reported once, at its beginning.
pub proof fn law_other_texts_are_reported(
    text: Seq<char>,
    line: nat,
    column: nat,
    message: Seq<char>,
    keys: Seq<(Seq<char>, Position)>,
)
    ensures
        ({
            let start = error_position(text, line, column);
            outline_diagnostics(text, OutlineView::Invalid { line, column, message }, keys) == seq![
                DiagnosticView {
                    range: Range {
                        start,
                        end: Position {
                            line: start.line,
                            character: if start.character < u32::MAX {
                                (start.character + 1) as u32
                            } else {
                                u32::MAX
                            },
                        },
                    },
                    severity: None,
                    source: None,
                    message: "JSON syntax error: "@ + message,
                    related_information: Seq::empty(),
                },
            ]
        }),
        outline_diagnostics(text, OutlineView::NotAnObject, keys) == seq![
            DiagnosticView {
                range: Range {
                    start: Position { line: 0, character: 0 },
                    end: Position { line: 0, character: 1 },
                },
                severity: None,
                source: None,
                message: "Witness file must be a JSON object"@,
                related_information: Seq::empty(),
            },
        ],
{
}

/// An error is placed on the line that it names, counted from one, behind the characters before the
/// byte that it names; in UTF-16 units, as editors count.
pub proof fn law_error_is_placed_on_its_line(
    text: Seq<char>,
    line: nat,
    content: Seq<char>,
    i: int,
)
    requires
        nth_line(text, line) == Some(content),
        0 <= i <= content.len(),
        line <= u32::MAX,
        utf16_len(content.take(i)) <= u32::MAX,
    ensures
        error_position(text, line + 1, utf8_len(content.take(i)) + 1) == (Position {
            line: line as u32,
            character: utf16_len(content.take(i)) as u32,
        }),
        units_before_byte(content, utf8_len(content.take(i))) == utf16_len(content.take(i)),
{
    crate::text::lemma_byte_at_char(content, i);
}

/// The place of an index of a JSON text is the number of line feeds before it, and the number of
/// UTF-16 units behind the last of them.
pub proof fn law_json_place_is_behind_last_feed(
    before: Seq<char>,
    line: Seq<char>,
    behind: Seq<char>,
)
    requires
        !line.contains('\n'),
    ensures
        line_feeds(before.push('\n') + line + behind, (before.len() + 1 + line.len()) as int)
            == line_feeds(before, before.len() as int) + 1,
        units_on_line(before.push('\n') + line + behind, (before.len() + 1 + line.len()) as int)
            == utf16_len(line),
        line_feeds(line + behind, line.len() as int) == 0,
        units_on_line(line + behind, line.len() as int) == utf16_len(line),
{
    let text = before.push('\n') + line + behind;
    let n = before.len() as int;
    lemma_feeds_of_prefix(before, text, n);
    lemma_units_behind(text, n + 1, line, line.len() as int);
    lemma_units_from_start(line + behind, line, line.len() as int);
    assert(line.take(line.len() as int) =~= line);
}

proof fn lemma_feeds_of_prefix(before: Seq<char>, text: Seq<char>, i: int)
    requires
        0 <= i <= before.len() <= text.len(),
        forall|k: int| 0 <= k < before.len() ==> before[k] == #[trigger] text[k],
    ensures
        line_feeds(before, i) == line_feeds(text, i),
    decreases i,
{
    if i > 0 {
        lemma_feeds_of_prefix(before, text, i - 1);
        assert(before[i - 1] == text[i - 1]);
    }
}

proof fn lemma_units_behind(text: Seq<char>, start: int, line: Seq<char>, i: int)
    requires
        0 < start,
        0 <= i <= line.len(),
        start + line.len() <= text.len(),
        text[start - 1] == '\n',
        forall|k: int| 0 <= k < line.len() ==> #[trigger] line[k] == text[start + k],
        !line.contains('\n'),
    ensures
        units_on_line(text, start + i) == utf16_len(line.take(i)),
        line_feeds(text, start + i) == line_feeds(text, start - 1) + 1,
    decreases i,
{
    if i > 0 {
        lemma_units_behind(text, start, line, i - 1);
        assert(line[i - 1] == text[start + i - 1]);
        assert(line.contains(line[i - 1]));
        assert(line.take(i).drop_last() =~= line.take(i - 1));
    } else {
        assert(line.take(0) =~= Seq::<char>::empty());
    }
}

proof fn lemma_units_from_start(text: Seq<char>, line: Seq<char>, i: int)
    requires
        0 <= i <= line.len() <= text.len(),
        forall|k: int| 0 <= k < line.len() ==> #[trigger] line[k] == text[k],
        !line.contains('\n'),
    ensures
        units_on_line(text, i) == utf16_len(line.take(i)),
        line_feeds(text, i) == 0,
    decreases i,
{
    if i > 0 {
        lemma_units_from_start(text, line, i - 1);
        assert(line[i - 1] == text[i - 1]);
        assert(line.contains(line[i - 1]));
        assert(line.take(i).drop_last() =~= line.take(i - 1));
    } else {
        assert(line.take(0) =~= Seq::<char>::empty());
    }
}

/// Whether the next string behind some characters is a key of the outermost object.
pub open spec fn awaits_key(text: Seq<char>, i: int) -> bool {
    let r = reading(text, i);
    !r.in_string && r.depth == 1 && r.expects_key
}

/// Whether some characters of a text neither end a string nor escape anything.
pub open spec fn is_plain(text: Seq<char>, from: int, to: int) -> bool {
    forall|k: int| from <= k < to ==> #[trigger] text[k] != '"' && text[k] != '\\'
}

/// A string where a key of the outermost object is awaited is that key, with its quotes. Behind it
/// no further key is awaited before a comma.
pub proof fn law_string_in_place_of_key_is_key(text: Seq<char>, start: int, end: int)
    requires
        0 <= start < end < text.len(),
        awaits_key(text, start),
        text[start] == '"',
        text[end] == '"',
        is_plain(text, start + 1, end),
    ensures
        key_tokens(text, end + 1) == key_tokens(text, start).push((start, end + 1)),
        !awaits_key(text, end + 1),
        reading(text, end + 1).depth == 1,
        !reading(text, end + 1).in_string,
{
    lemma_inside_string(text, start, end);
    assert(key_tokens(text, end) == key_tokens(text, start));
}

/// A string elsewhere is no key, and whatever it holds changes nothing.
pub proof fn law_other_strings_change_nothing(text: Seq<char>, start: int, end: int)
    requires
        0 <= start < end < text.len(),
        !reading(text, start).in_string,
        !awaits_key(text, start),
        text[start] == '"',
        text[end] == '"',
        is_plain(text, start + 1, end),
    ensures
        key_tokens(text, end + 1) == key_tokens(text, start),
        reading(text, end + 1).depth == reading(text, start).depth,
        reading(text, end + 1).expects_key == reading(text, start).expects_key,
        !reading(text, end + 1).in_string,
{
    lemma_inside_string(text, start, end);
}

proof fn lemma_inside_string(text: Seq<char>, start: int, i: int)
    requires
        0 <= start < i <= text.len(),
        !reading(text, start).in_string,
        text[start] == '"',
        is_plain(text, start + 1, i),
    ensures
        ({
            let r = reading(text, i);
            &&& r.in_string
            &&& !r.escaped
            &&& r.is_key == awaits_key(text, start)
            &&& r.string_start == start
            &&& r.depth == reading(text, start).depth
            &&& r.expects_key == reading(text, start).expects_key
        }),
        key_tokens(text, i) == key_tokens(text, start),
    decreases i - start,
{
    lemma_escaped(text, start);
    if i > start + 1 {
        lemma_inside_string(text, start, i - 1);
        assert(text[i - 1] != '"' && text[i - 1] != '\\');
    }
}

/// Outside of strings nothing is escaped.
proof fn lemma_escaped(text: Seq<char>, i: int)
    ensures
        reading(text, i).escaped ==> reading(text, i).in_string,
    decreases i,
{
    if i > 0 {
        lemma_escaped(text, i - 1);
    }
}

/// The brace that begins the outermost object awaits its first key, and a comma in it awaits the
/// next. Brackets further in, with what stands between them, await none.
pub proof fn law_braces_and_commas_await_keys(text: Seq<char>, start: int, end: int)
    requires
        0 <= start < end < text.len(),
        !reading(text, start).in_string,
    ensures
        reading(text, start).depth == 0 && text[start] == '{' ==> awaits_key(text, start + 1),
        reading(text, start).depth == 1 && text[start] == ',' ==> awaits_key(text, start + 1),
        reading(text, start).depth >= 1 && (text[start] == '{' || text[start] == '[') && (text[end]
            == '}' || text[end] == ']') && (forall|k: int|
            start < k < end ==> !is_mark(#[trigger] text[k])) ==> {
            &&& reading(text, end + 1).depth == reading(text, start).depth
            &&& reading(text, end + 1).expects_key == reading(text, start).expects_key
            &&& !reading(text, end + 1).in_string
            &&& key_tokens(text, end + 1) == key_tokens(text, start)
        },
        !is_mark(text[start]) && text[start] != ',' ==> {
            &&& reading(text, start + 1) == reading(text, start)
            &&& key_tokens(text, start + 1) == key_tokens(text, start)
        },
{
    if reading(text, start).depth >= 1 && (text[start] == '{' || text[start] == '[') && (forall|k:
        int| start < k < end ==> !is_mark(#[trigger] text[k])) {
        lemma_inside_brackets(text, start, end);
    }
}

/// Whether a character is a bracket or a quote.
pub open spec fn is_mark(c: char) -> bool {
    c == '{' || c == '}' || c == '[' || c == ']' || c == '"'
}

proof fn lemma_inside_brackets(text: Seq<char>, start: int, i: int)
    requires
        0 <= start < i <= text.len(),
        !reading(text, start).in_string,
        reading(text, start).depth >= 1,
        text[start] == '{' || text[start] == '[',
        forall|k: int| start < k < i ==> !is_mark(#[trigger] text[k]),
    ensures
        reading(text, i).depth == reading(text, start).depth + 1,
        reading(text, i).expects_key == reading(text, start).expects_key,
        !reading(text, i).in_string,
        key_tokens(text, i) == key_tokens(text, start),
    decreases i - start,
{
    if i > start + 1 {
        lemma_inside_brackets(text, start, i - 1);
        assert(!is_mark(text[i - 1]));
    }
}

/// The keys of a text are those of its tokens, in their order, each at the place of its first quote;
/// one that cannot be decoded is left out.
pub proof fn law_keys_are_decoded(
    quoted: Seq<(Seq<char>, Position)>,
    decoded: Seq<Option<Seq<char>>>,
    text: Seq<char>,
    i: int,
)
    requires
        decoded.len() == quoted.len(),
    ensures
        quoted.len() == 0 ==> decoded_keys(quoted, decoded).len() == 0,
        quoted.len() > 0 ==> decoded_keys(quoted, decoded) == (match decoded.last() {
            Some(key) => decoded_keys(quoted.drop_last(), decoded.drop_last()).push(
                (key, quoted.last().1),
            ),
            None => decoded_keys(quoted.drop_last(), decoded.drop_last()),
        }),
        ({
            let tokens = key_tokens(text, text.len() as int);
            let list = quoted_keys_of(text, tokens);
            &&& list.len() == tokens.len()
            &&& 0 <= i < tokens.len() ==> {
                &&& list[i].0 == text.subrange(tokens[i].0, tokens[i].1)
                &&& list[i].1 == json_position(text, tokens[i].0)
            }
            &&& key_positions_of(text) == decoded_keys(
                list,
                Seq::new(list.len(), |k: int| crate::witness::json_string_of(list[k].0)),
            )
        }),
{
    if quoted.len() > 0 {
        lemma_decoded_prefix(quoted.drop_last(), decoded.drop_last(), decoded);
    }
    let list = quoted_keys_of(text, key_tokens(text, text.len() as int));
    assert(crate::witness::decodings(list) =~= Seq::new(
        list.len(),
        |k: int| crate::witness::json_string_of(list[k].0),
    ));
}

proof fn lemma_decoded_prefix(
    quoted: Seq<(Seq<char>, Position)>,
    decoded: Seq<Option<Seq<char>>>,
    more: Seq<Option<Seq<char>>>,
)
    requires
        quoted.len() <= decoded.len(),
        decoded.len() <= more.len(),
        forall|k: int| 0 <= k < decoded.len() ==> #[trigger] decoded[k] == more[k],
    ensures
        decoded_keys(quoted, decoded) == decoded_keys(quoted, more),
    decreases quoted.len(),
{
    if quoted.len() > 0 {
        lemma_decoded_prefix(quoted.drop_last(), decoded, more);
        assert(decoded[quoted.len() - 1] == more[quoted.len() - 1]);
    }
}

} // verus!
