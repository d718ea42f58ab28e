//! What holds of the search for a key in a text.

use vstd::prelude::*;

use crate::chars::{first_index, head_line, lemma_first_index_is, utf8_len};
use crate::protocol::Position;
use crate::utils::{first_place, key_position, place_in_lines, stands_at};

verus! {

/// Whether a key stands in quotes at an index of a line.
pub open spec fn quoted_at(line: Seq<char>, key: Seq<char>, i: int) -> bool {
    &&& 0 <= i && i + key.len() + 2 <= line.len()
    &&& line[i] == '"'
    &&& line[i + key.len() + 1] == '"'
    &&& forall|k: int| 0 <= k < key.len() ==> line[i + 1 + k] == #[trigger] key[k]
}

/// Whether a text is one line, with no carriage return at its end.
pub open spec fn is_line(line: Seq<char>) -> bool {
    &&& forall|k: int| 0 <= k < line.len() ==> #[trigger] line[k] != '\n'
    &&& line.len() > 0 ==> line[line.len() - 1] != '\r'
}

/// A key in quotes is the pattern that is looked for.
proof fn lemma_quoted(line: Seq<char>, key: Seq<char>, i: int)
    ensures
        stands_at(line, "\""@ + key + "\""@, i) <==> quoted_at(line, key, i),
{
    reveal_strlit("\"");
    let pattern = "\""@ + key + "\""@;
    assert(pattern.len() == key.len() + 2);
    if quoted_at(line, key, i) {
        let part = line.subrange(i, i + pattern.len());
        assert forall|k: int| 0 <= k < pattern.len() implies part[k] == pattern[k] by {
            if 0 < k <= key.len() {
                assert(line[i + 1 + (k - 1)] == key[k - 1]);
            }
        }
        assert(part =~= pattern);
    }
    if stands_at(line, pattern, i) {
        let part = line.subrange(i, i + pattern.len());
        assert(part[0] == '"' && part[key.len() as int + 1] == '"');
        assert forall|k: int| 0 <= k < key.len() implies line[i + 1 + k] == #[trigger] key[k] by {
            assert(part[k + 1] == pattern[k + 1]);
        }
    }
}

/// A pattern is found where it first stands, and not where it does not stand.
proof fn lemma_first_place(line: Seq<char>, pattern: Seq<char>, from: int, i: int)
    requires
        0 <= from <= i,
        i <= line.len() ==> stands_at(line, pattern, i),
        i <= line.len() + 1,
        forall|k: int| from <= k < i ==> !stands_at(line, pattern, k),
    ensures
        first_place(line, pattern, from) == (if i <= line.len() {
            Some(i)
        } else {
            None
        }),
    decreases i - from,
{
    if from < i {
        assert(!stands_at(line, pattern, from));
        lemma_first_place(line, pattern, from + 1, i);
    }
}

/// A line that is followed by another is the first one.
proof fn lemma_head(line: Seq<char>, rest: Seq<char>)
    requires
        is_line(line),
    ensures
        head_line(line.push('\n') + rest) == line,
        head_line(line) == line,
        first_index(line.push('\n') + rest, '\n') == line.len(),
        first_index(line, '\n') == line.len(),
        (line.push('\n') + rest).skip(line.len() as int + 1) == rest,
{
    let text = line.push('\n') + rest;
    let n = line.len() as int;
    lemma_first_index_is(text, '\n', n);
    lemma_first_index_is(line, '\n', n);
    assert(text.take(n) =~= line);
    assert(line.take(n) =~= line);
    assert(text.skip(n + 1) =~= rest);
    if n > 0 {
        assert(text[n - 1] == line[n - 1]);
    }
}

/// A key is found where it first stands in quotes on a line, whatever follows that line. Columns
/// count bytes.
pub proof fn law_key_is_found_where_it_first_stands(
    line: Seq<char>,
    rest: Seq<char>,
    key: Seq<char>,
    i: int,
)
    requires
        is_line(line),
        quoted_at(line, key, i),
        forall|k: int| 0 <= k < i ==> !#[trigger] quoted_at(line, key, k),
        utf8_len(line.take(i)) <= u32::MAX,
    ensures
        key_position(line, key) == Some(
            Position { line: 0, character: utf8_len(line.take(i)) as u32 },
        ),
        key_position(line.push('\n') + rest, key) == Some(
            Position { line: 0, character: utf8_len(line.take(i)) as u32 },
        ),
{
    let pattern = "\""@ + key + "\""@;
    lemma_head(line, rest);
    lemma_quoted(line, key, i);
    assert forall|k: int| 0 <= k < i implies !stands_at(line, pattern, k) by {
        lemma_quoted(line, key, k);
        assert(!quoted_at(line, key, k));
    }
    lemma_first_place(line, pattern, 0, i);
}

/// The place of a pattern counts its lines from the number that it is given.
proof fn lemma_lines_are_counted(text: Seq<char>, pattern: Seq<char>, n: nat)
    ensures
        place_in_lines(text, pattern, n + 1) == (match place_in_lines(text, pattern, n) {
            Some((line, column)) => Some((line + 1, column)),
            None => None,
        }),
    decreases text.len(),
{
    let end = first_index(text, '\n');
    if text.len() > 0 && first_place(head_line(text), pattern, 0) is None && 0 <= end
        < text.len() {
        lemma_lines_are_counted(text.skip(end + 1), pattern, n + 1);
    }
}

/// A line without the key is passed: the key is found where it is found behind that line, one line
/// further down. In a text of lines without it there is none.
pub proof fn law_lines_without_key_are_passed(line: Seq<char>, rest: Seq<char>, key: Seq<char>)
    requires
        is_line(line),
        forall|k: int| !#[trigger] quoted_at(line, key, k),
    ensures
        key_position(line, key) is None,
        key_position(line.push('\n') + rest, key) == (match key_position(rest, key) {
            Some(position) => if position.line < u32::MAX {
                Some(
                    Position {
                        line: (position.line + 1) as u32,
                        character: position.character,
                    },
                )
            } else {
                None
            },
            None => None,
        }),
{
    let pattern = "\""@ + key + "\""@;
    lemma_head(line, rest);
    assert forall|k: int| 0 <= k < line.len() + 1 implies !stands_at(line, pattern, k) by {
        lemma_quoted(line, key, k);
        assert(!quoted_at(line, key, k));
    }
    lemma_first_place(line, pattern, 0, line.len() as int + 1);
    lemma_lines_are_counted(rest, pattern, 0);
}

} // verus!
