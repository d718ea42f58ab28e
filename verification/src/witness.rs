//! Witness files: JSON objects whose members give a value and a type each.

use vstd::prelude::*;

use crate::chars::{
    byte_len, clamp, clamp_u32, join2, join3, len_utf16, len_utf8, nth_line, same, split_line,
    to_chars, to_text, utf16_len, utf16_width, utf8_len,
};
use crate::order::{contains_text, texts};
use crate::protocol::{
    diagnostic_views, opt_text, simple_diagnostic, Diagnostic, DiagnosticView, Position, Range,
};
use crate::rope::{byte_at_char, char_at_byte};

verus! {

/// Where and why a text is not JSON; lines and byte columns are counted from one.
#[derive(Debug)]
pub struct JsonError {
    pub line: usize,
    pub column: usize,
    pub message: String,
}

/// A member of the witness object: its name and, where its value is an object, the names of that
/// object's members.
#[derive(Debug)]
pub struct Member {
    pub name: String,
    pub fields: Option<Vec<String>>,
}

/// What the rules of witness files look at in a JSON text.
#[derive(Debug)]
pub enum Outline {
    Invalid(JsonError),
    NotAnObject,
    Object(Vec<Member>),
}

/// What a [`Member`] says.
pub struct MemberView {
    pub name: Seq<char>,
    pub fields: Option<Seq<Seq<char>>>,
}

impl View for Member {
    type V = MemberView;

    open spec fn view(&self) -> MemberView {
        MemberView {
            name: self.name@,
            fields: match self.fields {
                Some(fields) => Some(texts(fields@)),
                None => None,
            },
        }
    }
}

/// What an [`Outline`] says.
pub enum OutlineView {
    Invalid { line: nat, column: nat, message: Seq<char> },
    NotAnObject,
    Object(Seq<MemberView>),
}

impl View for Outline {
    type V = OutlineView;

    open spec fn view(&self) -> OutlineView {
        match self {
            Outline::Invalid(error) => OutlineView::Invalid {
                line: error.line as nat,
                column: error.column as nat,
                message: error.message@,
            },
            Outline::NotAnObject => OutlineView::NotAnObject,
            Outline::Object(members) => OutlineView::Object(
                Seq::new(members@.len(), |i: int| members@[i]@),
            ),
        }
    }
}

/// What `serde_json::from_str::<Value>` finds in a text, as far as witness files look at it.
pub uninterp spec fn outline_of(text: Seq<char>) -> OutlineView;

/// `serde_json::from_str::<Value>` reads a JSON text, or says where it is none. The result is a
/// function of the text. Which texts are JSON, and in which order the members come, is left open.
#[verifier::external_body]
fn json_outline(text: &str) -> (r: Outline)
    ensures
        r@ == outline_of(text@),
{
    match serde_json::from_str::<serde_json::Value>(text) {
        Err(error) => Outline::Invalid(
            JsonError { line: error.line(), column: error.column(), message: error.to_string() },
        ),
        Ok(value) => match value.as_object() {
            None => Outline::NotAnObject,
            Some(members) => Outline::Object(members.iter().map(|(name, value)| Member {
                name: name.clone(),
                fields: value.as_object().map(|fields| fields.keys().cloned().collect()),
            }).collect()),
        },
    }
}

/// What `serde_json::from_str::<String>` reads from a text.
pub uninterp spec fn json_string_of(text: Seq<char>) -> Option<Seq<char>>;

/// `serde_json::from_str::<String>` decodes a JSON string, with its quotes; the result is a
/// function of the text.
#[verifier::external_body]
fn json_string(quoted: &str) -> (r: Option<String>)
    ensures
        match r {
            Some(text) => json_string_of(quoted@) == Some(text@),
            None => json_string_of(quoted@) is None,
        },
{
    serde_json::from_str::<String>(quoted).ok()
}

/// How far a reading of JSON has come: how many brackets are open, whether the next string is a
/// key of the outermost object, and the string that is being read.
pub struct Reading {
    pub depth: nat,
    pub expects_key: bool,
    pub in_string: bool,
    pub escaped: bool,
    pub is_key: bool,
    pub string_start: int,
}

/// The reading before the first character.
pub open spec fn reading_start() -> Reading {
    Reading {
        depth: 0,
        expects_key: false,
        in_string: false,
        escaped: false,
        is_key: false,
        string_start: 0,
    }
}

/// The reading behind the character `c` at index `i`.
pub open spec fn reading_step(r: Reading, i: int, c: char) -> Reading {
    if r.in_string {
        if r.escaped {
            Reading { escaped: false, ..r }
        } else if c == '\\' {
            Reading { escaped: true, ..r }
        } else if c == '"' {
            Reading { in_string: false, expects_key: r.expects_key && !r.is_key, ..r }
        } else {
            r
        }
    } else if c == '"' {
        Reading { in_string: true, is_key: r.depth == 1 && r.expects_key, string_start: i, ..r }
    } else if c == '{' || c == '[' {
        Reading {
            depth: r.depth + 1,
            expects_key: r.expects_key || (r.depth == 0 && c == '{'),
            ..r
        }
    } else if c == '}' || c == ']' {
        Reading {
            depth: if r.depth > 0 {
                (r.depth - 1) as nat
            } else {
                0
            },
            expects_key: r.expects_key && r.depth != 1,
            ..r
        }
    } else if c == ',' && r.depth == 1 {
        Reading { expects_key: true, ..r }
    } else {
        r
    }
}

/// The reading of the first `i` characters.
pub open spec fn reading(text: Seq<char>, i: int) -> Reading
    decreases i,
{
    if i <= 0 {
        reading_start()
    } else {
        reading_step(reading(text, i - 1), i - 1, text[i - 1])
    }
}

/// Whether the character at `i` is the quote that ends a key of the outermost object.
pub open spec fn ends_key(text: Seq<char>, i: int) -> bool {
    let r = reading(text, i);
    0 <= i < text.len() && r.in_string && !r.escaped && r.is_key && text[i] == '"'
}

/// The keys of the outermost object that end among the first `n` characters, each by its first
/// index and the index behind it.
pub open spec fn key_tokens(text: Seq<char>, n: int) -> Seq<(int, int)>
    decreases n,
{
    if n <= 0 {
        Seq::empty()
    } else if ends_key(text, n - 1) {
        key_tokens(text, n - 1).push((reading(text, n - 1).string_start, n))
    } else {
        key_tokens(text, n - 1)
    }
}

/// The number of line feeds among the first `i` characters.
pub open spec fn line_feeds(text: Seq<char>, i: int) -> nat
    decreases i,
{
    if i <= 0 {
        0
    } else {
        line_feeds(text, i - 1) + (if text[i - 1] == '\n' {
            1nat
        } else {
            0nat
        })
    }
}

/// The number of UTF-16 units between the last line feed before index `i` and `i`.
pub open spec fn units_on_line(text: Seq<char>, i: int) -> nat
    decreases i,
{
    if i <= 0 || text[i - 1] == '\n' {
        0
    } else {
        units_on_line(text, i - 1) + utf16_width(text[i - 1])
    }
}

/// The position of index `i` where only line feeds end lines.
pub open spec fn json_position(text: Seq<char>, i: int) -> Position {
    Position { line: clamp(line_feeds(text, i)), character: clamp(units_on_line(text, i)) }
}

/// Some keys of a text in their quotes, with their positions.
pub open spec fn quoted_keys_of(text: Seq<char>, tokens: Seq<(int, int)>) -> Seq<
    (Seq<char>, Position),
> {
    Seq::new(
        tokens.len(),
        |i: int| (text.subrange(tokens[i].0, tokens[i].1), json_position(text, tokens[i].0)),
    )
}

/// What some quoted keys decode to.
pub open spec fn decodings(quoted: Seq<(Seq<char>, Position)>) -> Seq<Option<Seq<char>>> {
    Seq::new(quoted.len(), |i: int| json_string_of(quoted[i].0))
}

/// Some keys with what they decode to in the place of what is quoted; one that does not decode is
/// left out.
pub open spec fn decoded_keys(
    quoted: Seq<(Seq<char>, Position)>,
    decoded: Seq<Option<Seq<char>>>,
) -> Seq<(Seq<char>, Position)>
    decreases quoted.len(),
{
    if quoted.len() == 0 {
        Seq::empty()
    } else {
        let before = decoded_keys(quoted.drop_last(), decoded);
        match decoded[quoted.len() - 1] {
            Some(key) => before.push((key, quoted.last().1)),
            None => before,
        }
    }
}

/// The keys of the outermost object with their positions, in the order of the text.
pub open spec fn key_positions_of(text: Seq<char>) -> Seq<(Seq<char>, Position)> {
    let quoted = quoted_keys_of(text, key_tokens(text, text.len() as int));
    decoded_keys(quoted, decodings(quoted))
}

/// The position of a key: the last one, where a key occurs more than once.
pub open spec fn position_of_key(keys: Seq<(Seq<char>, Position)>, key: Seq<char>) -> Option<
    Position,
>
    decreases keys.len(),
{
    if keys.len() == 0 {
        None
    } else if keys.last().0 == key {
        Some(keys.last().1)
    } else {
        position_of_key(keys.drop_last(), key)
    }
}

/// The texts and positions of a list of keys.
pub open spec fn key_views(keys: Seq<(String, Position)>) -> Seq<(Seq<char>, Position)> {
    Seq::new(keys.len(), |i: int| (keys[i].0@, keys[i].1))
}

/// The UTF-16 column of an index is no greater than the length of the text before it.
proof fn lemma_units_bound(text: Seq<char>, i: int)
    requires
        0 <= i <= text.len(),
    ensures
        units_on_line(text, i) <= utf16_len(text.take(i)),
        line_feeds(text, i) <= i,
    decreases i,
{
    if i > 0 {
        lemma_units_bound(text, i - 1);
        assert(text.take(i).drop_last() == text.take(i - 1));
    }
}

/// Reading opens no more brackets than it has read characters.
proof fn lemma_reading_bound(text: Seq<char>, i: int)
    requires
        0 <= i <= text.len(),
    ensures
        reading(text, i).depth <= i,
        0 <= reading(text, i).string_start <= i,
        reading(text, i).in_string ==> reading(text, i).string_start < i,
    decreases i,
{
    if i > 0 {
        lemma_reading_bound(text, i - 1);
    }
}

/// The keys of the outermost object of a JSON text, in their quotes, and where they stand.
pub fn quoted_keys(text: &str) -> (keys: Vec<(String, Position)>)
    ensures
        key_views(keys@) == quoted_keys_of(text@, key_tokens(text@, text@.len() as int)),
{
    let chars: Vec<char> = to_chars(text);
    let size: usize = byte_len(text);
    let mut keys: Vec<(String, Position)> = Vec::new();
    let mut depth: usize = 0;
    let mut line: usize = 0;
    let mut units: usize = 0;
    let mut expects_key: bool = false;
    let mut in_string: bool = false;
    let mut escaped: bool = false;
    let mut is_key: bool = false;
    let mut string_start: usize = 0;
    let mut string_position: Position = Position::new(0, 0);
    let mut i: usize = 0;
    assert(key_views(keys@) == Seq::<(Seq<char>, Position)>::empty());
    while i < chars.len()
        invariant
            chars@ == text@,
            size == utf8_len(text@),
            i <= chars@.len(),
            reading(text@, i as int) == (Reading {
                depth: depth as nat,
                expects_key,
                in_string,
                escaped,
                is_key,
                string_start: string_start as int,
            }),
            line == line_feeds(text@, i as int),
            units == units_on_line(text@, i as int),
            in_string ==> string_position == json_position(text@, string_start as int),
            key_views(keys@) == quoted_keys_of(text@, key_tokens(text@, i as int)),
        decreases chars@.len() - i,
    {
        let c: char = chars[i];
        proof {
            lemma_reading_bound(text@, i as int);
            lemma_units_bound(text@, i as int);
            lemma_units_bound(text@, i + 1);
            crate::chars::lemma_utf16_within_utf8(text@);
            assert(text@.take(text@.len() as int) == text@);
            crate::chars::lemma_utf16_len_take(text@, i + 1, text@.len() as int);
            assert(key_tokens(text@, i + 1) == if ends_key(text@, i as int) {
                key_tokens(text@, i as int).push((string_start as int, i + 1))
            } else {
                key_tokens(text@, i as int)
            });
        }
        if in_string {
            if escaped {
                escaped = false;
            } else if c == '\\' {
                escaped = true;
            } else if c == '"' {
                in_string = false;
                if is_key {
                    let quoted: String = to_text(
                        vstd::slice::slice_subrange(chars.as_slice(), string_start, i + 1),
                    );
                    let ghost before = key_views(keys@);
                    let ghost key = (text@.subrange(string_start as int, i + 1), string_position);
                    assert(quoted@ == key.0);
                    keys.push((quoted, string_position));
                    assert(key_views(keys@) =~= before.push(key));
                    assert(before.push(key) =~= quoted_keys_of(
                        text@,
                        key_tokens(text@, i + 1),
                    ));
                    expects_key = false;
                }
            }
        } else if c == '"' {
            in_string = true;
            is_key = depth == 1 && expects_key;
            string_start = i;
            string_position = Position::new(clamp_u32(line), clamp_u32(units));
        } else if c == '{' || c == '[' {
            if depth == 0 && c == '{' {
                expects_key = true;
            }
            depth = depth + 1;
        } else if c == '}' || c == ']' {
            if depth == 1 {
                expects_key = false;
            }
            if depth > 0 {
                depth = depth - 1;
            }
        } else if c == ',' && depth == 1 {
            expects_key = true;
        }
        if c == '\n' {
            line = line + 1;
            units = 0;
        } else {
            units = units + len_utf16(c);
        }
        i = i + 1;
    }
    keys
}

/// What an optional text says, for each of a list.
pub open spec fn opt_texts(list: Seq<Option<String>>) -> Seq<Option<Seq<char>>> {
    Seq::new(list.len(), |i: int| opt_text(list[i]))
}

/// Puts what some keys decode to in the place of what is quoted; one that does not decode is left
/// out.
pub fn decode_keys(quoted: &Vec<(String, Position)>, decoded: &Vec<Option<String>>) -> (r: Vec<
    (String, Position),
>)
    requires
        quoted@.len() == decoded@.len(),
    ensures
        key_views(r@) == decoded_keys(key_views(quoted@), opt_texts(decoded@)),
{
    let ghost shown = key_views(quoted@);
    let mut r: Vec<(String, Position)> = Vec::new();
    let mut i: usize = 0;
    assert(key_views(r@) =~= Seq::<(Seq<char>, Position)>::empty());
    while i < quoted.len()
        invariant
            i <= quoted@.len() == decoded@.len(),
            shown == key_views(quoted@),
            key_views(r@) == decoded_keys(shown.take(i as int), opt_texts(decoded@)),
        decreases quoted@.len() - i,
    {
        assert(shown.take(i + 1).drop_last() == shown.take(i as int));
        assert(shown.take(i + 1).last() == shown[i as int]);
        if let Some(key) = &decoded[i] {
            let ghost before = key_views(r@);
            r.push((key.clone(), quoted[i].1));
            assert(key_views(r@) =~= before.push((key@, quoted@[i as int].1)));
        }
        i = i + 1;
    }
    assert(shown.take(i as int) == shown);
    r
}

/// The keys of the outermost object of a JSON text and where they stand.
pub fn key_positions(text: &str) -> (keys: Vec<(String, Position)>)
    ensures
        key_views(keys@) == key_positions_of(text@),
{
    let quoted: Vec<(String, Position)> = quoted_keys(text);
    let mut decoded: Vec<Option<String>> = Vec::new();
    let mut i: usize = 0;
    while i < quoted.len()
        invariant
            i <= quoted@.len(),
            decoded@.len() == i,
            forall|k: int|
                0 <= k < i ==> opt_text(#[trigger] decoded@[k]) == decodings(
                    key_views(quoted@),
                )[k],
        decreases quoted@.len() - i,
    {
        let key: Option<String> = json_string(quoted[i].0.as_str());
        decoded.push(key);
        i = i + 1;
    }
    assert(opt_texts(decoded@) =~= decodings(key_views(quoted@)));
    decode_keys(&quoted, &decoded)
}

/// Each key stands between two quotes inside of the text, and behind the key before it.
pub proof fn law_keys_are_quoted_and_in_order(text: Seq<char>, i: int)
    requires
        0 <= i < key_tokens(text, text.len() as int).len(),
    ensures
        ({
            let (start, end) = key_tokens(text, text.len() as int)[i];
            &&& 0 <= start < end - 1 < text.len()
            &&& text[start] == '"'
            &&& text[end - 1] == '"'
            &&& reading(text, start).depth == 1
            &&& i > 0 ==> key_tokens(text, text.len() as int)[i - 1].1 <= start
        }),
{
    lemma_tokens(text, text.len() as int);
}

/// A string that is being read began at a quote, and a key of the outermost object one level deep.
proof fn lemma_string_start(text: Seq<char>, i: int)
    requires
        0 <= i <= text.len(),
        reading(text, i).in_string,
    ensures
        0 <= reading(text, i).string_start < i,
        text[reading(text, i).string_start] == '"',
        !reading(text, reading(text, i).string_start).in_string,
        reading(text, i).is_key ==> reading(text, reading(text, i).string_start).depth == 1,
    decreases i,
{
    if reading(text, i - 1).in_string {
        lemma_string_start(text, i - 1);
    }
}

/// The tokens among the first `n` characters are quoted, in order, and end before the string that
/// is being read.
proof fn lemma_tokens(text: Seq<char>, n: int)
    requires
        0 <= n <= text.len(),
    ensures
        forall|i: int|
            0 <= i < key_tokens(text, n).len() ==> {
                let token = #[trigger] key_tokens(text, n)[i];
                &&& 0 <= token.0 < token.1 - 1 < n
                &&& text[token.0] == '"'
                &&& text[token.1 - 1] == '"'
                &&& reading(text, token.0).depth == 1
                &&& i > 0 ==> key_tokens(text, n)[i - 1].1 <= token.0
            },
        key_tokens(text, n).len() > 0 && reading(text, n).in_string ==> key_tokens(text, n).last().1
            <= reading(text, n).string_start,
    decreases n,
{
    if n > 0 {
        lemma_tokens(text, n - 1);
        if ends_key(text, n - 1) {
            lemma_string_start(text, n - 1);
        }
        if key_tokens(text, n - 1).len() > 0 {
            let last = key_tokens(text, n - 1).len() - 1;
            assert(key_tokens(text, n - 1)[last].1 <= n - 1);
        }
    }
}

/// The position of the last of some keys that is `key`.
fn find_key(keys: &Vec<(String, Position)>, key: &str) -> (r: Option<Position>)
    ensures
        r == position_of_key(key_views(keys@), key@),
{
    let mut n: usize = keys.len();
    assert(keys@.take(n as int) == keys@);
    while n > 0
        invariant
            n <= keys@.len(),
            position_of_key(key_views(keys@), key@) == position_of_key(
                key_views(keys@.take(n as int)),
                key@,
            ),
        decreases n,
    {
        proof {
            let shown = key_views(keys@.take(n as int));
            assert(shown.drop_last() == key_views(keys@.take(n - 1)));
            assert(shown.last() == (keys@[n - 1].0@, keys@[n - 1].1));
        }
        if same(keys[n - 1].0.as_str(), key) {
            return Some(keys[n - 1].1);
        }
        n = n - 1;
    }
    None
}

/// The number of UTF-16 units of the characters of `line` that end at or before byte `column`.
pub open spec fn units_before_byte(line: Seq<char>, column: nat) -> nat {
    utf16_len(line.take(char_at_byte(line, column)))
}

/// The boundary that a byte column falls back to is the greatest one that is not behind it. The
/// units of a line are counted up to there, so that a greater column never gives a smaller count.
pub proof fn law_columns_keep_their_order(line: Seq<char>, column: nat, greater: nat)
    requires
        column <= greater,
    ensures
        byte_at_char(line, char_at_byte(line, column)) <= column,
        forall|i: int|
            0 <= i <= line.len() && #[trigger] byte_at_char(line, i) <= column ==> i
                <= char_at_byte(line, column),
        units_before_byte(line, column) <= units_before_byte(line, greater),
{
    let i = char_at_byte(line, column);
    let j = char_at_byte(line, greater);
    crate::text::lemma_char_at_byte(line, column);
    crate::text::lemma_char_at_byte(line, greater);
    assert forall|k: int|
        0 <= k <= line.len() && #[trigger] byte_at_char(line, k) <= column implies k <= i by {
        if i < k {
            crate::chars::lemma_utf8_len_take(line, i + 1, k);
        }
    }
    if j < i {
        crate::chars::lemma_utf8_len_take(line, j + 1, i);
    }
    crate::chars::lemma_utf16_len_take(line, i, j);
}

/// The column in UTF-16 units of a byte column. One inside of a character is that of the character,
/// and one behind the end is that of the end.
pub fn utf16_column_at_byte(line: &str, byte_column: usize) -> (n: usize)
    ensures
        n == units_before_byte(line@, byte_column as nat),
{
    let chars: Vec<char> = to_chars(line);
    let size: usize = byte_len(line);
    let mut i: usize = 0;
    let mut bytes: usize = 0;
    let mut units: usize = 0;
    assert(line@.take(line@.len() as int) == line@);
    while i < chars.len() && len_utf8(chars[i]) <= byte_column - bytes
        invariant
            chars@ == line@,
            size == utf8_len(line@),
            i <= chars@.len(),
            bytes == utf8_len(line@.take(i as int)),
            units == utf16_len(line@.take(i as int)),
            bytes <= byte_column,
            line@.take(line@.len() as int) == line@,
        decreases chars@.len() - i,
    {
        proof {
            assert(line@.take(i + 1).drop_last() == line@.take(i as int));
            crate::chars::lemma_utf8_len_take(line@, i + 1, line@.len() as int);
            crate::chars::lemma_utf16_within_utf8(line@.take(i + 1));
        }
        bytes = bytes + len_utf8(chars[i]);
        units = units + len_utf16(chars[i]);
        i = i + 1;
    }
    proof {
        crate::text::lemma_char_at_byte(line@, byte_column as nat);
        let k = char_at_byte(line@, byte_column as nat);
        if i < line@.len() {
            assert(line@.take(i + 1).drop_last() == line@.take(i as int));
        }
        if k < i {
            crate::chars::lemma_utf8_len_take(line@, k + 1, i as int);
        } else if k > i {
            crate::chars::lemma_utf8_len_take(line@, i + 1, k);
        }
    }
    units
}

/// `n` less one, or zero.
pub open spec fn before(n: nat) -> nat {
    if n > 0 {
        (n - 1) as nat
    } else {
        0
    }
}

/// The position that a JSON error names by line and byte column, both counted from one.
pub open spec fn error_position(text: Seq<char>, line: nat, column: nat) -> Position {
    Position {
        line: clamp(before(line)),
        character: match nth_line(text, before(line)) {
            Some(content) => clamp(units_before_byte(content, before(column))),
            None => 0,
        },
    }
}

/// The position that a JSON error names.
pub fn json_error_position(text: &str, line: usize, column: usize) -> (r: Position)
    ensures
        r == error_position(text@, line as nat, column as nat),
{
    let chars: Vec<char> = to_chars(text);
    let line_number: usize = if line > 0 {
        line - 1
    } else {
        0
    };
    let byte_column: usize = if column > 0 {
        column - 1
    } else {
        0
    };
    let mut rest: &[char] = chars.as_slice();
    let mut n: usize = line_number;
    while rest.len() > 0
        invariant
            line_number == before(line as nat),
            byte_column == before(column as nat),
            nth_line(text@, before(line as nat)) == nth_line(rest@, n as nat),
        decreases rest@.len(),
    {
        proof {
            crate::chars::lemma_first_index(rest@, '\n');
        }
        let (content, tail) = split_line(rest);
        if n == 0 {
            let units: usize = utf16_column_at_byte(
                to_text(content).as_str(),
                byte_column,
            );
            return Position::new(clamp_u32(line_number), clamp_u32(units));
        }
        match tail {
            Some(tail) => {
                rest = tail;
                n = n - 1;
            },
            None => {
                return Position::new(clamp_u32(line_number), 0);
            },
        }
    }
    Position::new(clamp_u32(line_number), 0)
}

/// The diagnostic for a text that is not JSON.
pub open spec fn syntax_diagnostic(
    text: Seq<char>,
    line: nat,
    column: nat,
    message: Seq<char>,
) -> DiagnosticView {
    let start = error_position(text, line, column);
    simple_diagnostic(
        Range {
            start,
            end: Position {
                line: start.line,
                character: if start.character < u32::MAX {
                    (start.character + 1) as u32
                } else {
                    u32::MAX
                },
            },
        },
        "JSON syntax error: "@ + message,
    )
}

/// A diagnostic at the key of a member, or none where the key has no position.
pub open spec fn at_key(
    keys: Seq<(Seq<char>, Position)>,
    name: Seq<char>,
    message: Seq<char>,
) -> Seq<DiagnosticView> {
    match position_of_key(keys, name) {
        Some(position) => seq![simple_diagnostic(Range { start: position, end: position }, message)],
        None => Seq::empty(),
    }
}

/// The message that a member has to be an object.
pub open spec fn not_an_object(name: Seq<char>) -> Seq<char> {
    "Witness '"@ + name + "' must be an object with 'value' and 'type' fields"@
}

/// The message that a member has no value, and that it has no type.
pub open spec fn missing_value(name: Seq<char>) -> Seq<char> {
    "Witness '"@ + name + "' is missing required 'value' field"@
}

pub open spec fn missing_type(name: Seq<char>) -> Seq<char> {
    "Witness '"@ + name + "' is missing required 'type' field"@
}

/// The diagnostics of a member: it has to be an object with a value and a type.
pub open spec fn member_diagnostics(
    keys: Seq<(Seq<char>, Position)>,
    member: MemberView,
) -> Seq<DiagnosticView> {
    match member.fields {
        None => at_key(keys, member.name, not_an_object(member.name)),
        Some(fields) => {
            (if fields.contains("value"@) {
                Seq::empty()
            } else {
                at_key(keys, member.name, missing_value(member.name))
            }) + (if fields.contains("type"@) {
                Seq::empty()
            } else {
                at_key(keys, member.name, missing_type(member.name))
            })
        },
    }
}

/// The diagnostics of some members, in their order.
pub open spec fn members_diagnostics(
    keys: Seq<(Seq<char>, Position)>,
    members: Seq<MemberView>,
) -> Seq<DiagnosticView>
    decreases members.len(),
{
    if members.len() == 0 {
        Seq::empty()
    } else {
        members_diagnostics(keys, members.drop_last()) + member_diagnostics(keys, members.last())
    }
}

/// The diagnostics of a witness file with a given outline, whose keys stand at some positions.
pub open spec fn outline_diagnostics(
    text: Seq<char>,
    outline: OutlineView,
    keys: Seq<(Seq<char>, Position)>,
) -> Seq<DiagnosticView> {
    match outline {
        OutlineView::Invalid { line, column, message } => seq![
            syntax_diagnostic(text, line, column, message),
        ],
        OutlineView::NotAnObject => seq![
            simple_diagnostic(
                Range {
                    start: Position { line: 0, character: 0 },
                    end: Position { line: 0, character: 1 },
                },
                "Witness file must be a JSON object"@,
            ),
        ],
        OutlineView::Object(members) => members_diagnostics(keys, members),
    }
}

/// Whether a member is an object with a value and a type.
pub open spec fn is_complete(member: MemberView) -> bool {
    match member.fields {
        Some(fields) => fields.contains("value"@) && fields.contains("type"@),
        None => false,
    }
}

/// Witnesses with a value and a type each are accepted.
pub proof fn law_complete_witnesses_are_accepted(
    text: Seq<char>,
    members: Seq<MemberView>,
    keys: Seq<(Seq<char>, Position)>,
)
    requires
        forall|i: int| 0 <= i < members.len() ==> is_complete(#[trigger] members[i]),
    ensures
        outline_diagnostics(text, OutlineView::Object(members), keys).len() == 0,
    decreases members.len(),
{
    if members.len() > 0 {
        assert(is_complete(members[members.len() - 1]));
        law_complete_witnesses_are_accepted(text, members.drop_last(), keys);
    }
}

/// A witness without a value or a type is reported where its name stands.
pub proof fn law_incomplete_witness_is_reported(
    text: Seq<char>,
    members: Seq<MemberView>,
    keys: Seq<(Seq<char>, Position)>,
    i: int,
)
    requires
        0 <= i < members.len(),
        !is_complete(members[i]),
        position_of_key(keys, members[i].name) is Some,
    ensures
        exists|k: int|
            0 <= k < outline_diagnostics(text, OutlineView::Object(members), keys).len() && (
            #[trigger] outline_diagnostics(
                text,
                OutlineView::Object(members),
                keys,
            )[k]).range.start == position_of_key(keys, members[i].name)->0,
    decreases members.len(),
{
    let all = outline_diagnostics(text, OutlineView::Object(members), keys);
    let before = members_diagnostics(keys, members.drop_last());
    let at = position_of_key(keys, members[i].name)->0;
    if i == members.len() - 1 {
        let own = member_diagnostics(keys, members[i]);
        assert(own[0].range.start == at);
        assert(all[before.len() as int] == own[0]);
    } else {
        law_incomplete_witness_is_reported(text, members.drop_last(), keys, i);
        let k = choose|k: int|
            0 <= k < before.len() && (#[trigger] outline_diagnostics(
                text,
                OutlineView::Object(members.drop_last()),
                keys,
            )[k]).range.start == at;
        assert(all[k] == before[k]);
    }
}

fn push_at_key(
    diagnostics: &mut Vec<Diagnostic>,
    keys: &Vec<(String, Position)>,
    key: &str,
    message: String,
)
    ensures
        diagnostic_views(final(diagnostics)@) == diagnostic_views(old(diagnostics)@) + at_key(
            key_views(keys@),
            key@,
            message@,
        ),
{
    let ghost shown = diagnostic_views(diagnostics@);
    let ghost text = message@;
    if let Some(position) = find_key(keys, key) {
        diagnostics.push(Diagnostic::new_simple(Range::new(position, position), message));
        assert(diagnostic_views(diagnostics@) =~= shown + at_key(key_views(keys@), key@, text));
    } else {
        assert(shown + at_key(key_views(keys@), key@, text) =~= shown);
    }
}

/// The diagnostics of a witness file whose outline is known, and where its keys stand.
pub fn validate_outline(text: &str, outline: &Outline, keys: &Vec<(String, Position)>) -> (r: Vec<
    Diagnostic,
>)
    ensures
        diagnostic_views(r@) == outline_diagnostics(text@, outline@, key_views(keys@)),
{
    let mut diagnostics: Vec<Diagnostic> = Vec::new();
    match outline {
        Outline::Invalid(error) => {
            let position: Position = json_error_position(text, error.line, error.column);
            let end: Position = Position::new(
                position.line,
                position.character.saturating_add(1),
            );
            diagnostics.push(
                Diagnostic::new_simple(
                    Range::new(position, end),
                    join2("JSON syntax error: ", error.message.as_str()),
                ),
            );
        },
        Outline::NotAnObject => {
            diagnostics.push(
                Diagnostic::new_simple(
                    Range::new(Position::new(0, 0), Position::new(0, 1)),
                    "Witness file must be a JSON object".to_owned(),
                ),
            );
        },
        Outline::Object(members) => {
            let mut i: usize = 0;
            let ghost shown = Seq::new(members@.len(), |i: int| members@[i]@);
            assert(diagnostic_views(diagnostics@) =~= Seq::<DiagnosticView>::empty());
            while i < members.len()
                invariant
                    i <= members@.len(),
                    shown == Seq::new(members@.len(), |i: int| members@[i]@),
                    diagnostic_views(diagnostics@) == members_diagnostics(
                        key_views(keys@),
                        shown.take(i as int),
                    ),
                decreases members@.len() - i,
            {
                let ghost keys_shown = key_views(keys@);
                let ghost so_far = diagnostic_views(diagnostics@);
                let member: &Member = &members[i];
                assert(shown.take(i + 1).drop_last() == shown.take(i as int));
                assert(shown.take(i + 1).last() == member@);
                let name: &str = member.name.as_str();
                match &member.fields {
                    None => {
                        push_at_key(
                            &mut diagnostics,
                            keys,
                            name,
                            join3(
                                "Witness '",
                                name,
                                "' must be an object with 'value' and 'type' fields",
                            ),
                        );
                    },
                    Some(fields) => {
                        if !contains_text(fields.as_slice(), "value") {
                            push_at_key(
                                &mut diagnostics,
                                keys,
                                name,
                                join3("Witness '", name, "' is missing required 'value' field"),
                            );
                        }
                        let ghost first = if texts(fields@).contains("value"@) {
                            Seq::<DiagnosticView>::empty()
                        } else {
                            at_key(keys_shown, name@, missing_value(name@))
                        };
                        assert(diagnostic_views(diagnostics@) =~= so_far + first);
                        if !contains_text(fields.as_slice(), "type") {
                            push_at_key(
                                &mut diagnostics,
                                keys,
                                name,
                                join3("Witness '", name, "' is missing required 'type' field"),
                            );
                        }
                        assert(diagnostic_views(diagnostics@) =~= so_far + member_diagnostics(
                            keys_shown,
                            member@,
                        ));
                    },
                }
                i = i + 1;
            }
            assert(shown.take(i as int) == shown);
        },
    }
    assert(diagnostic_views(diagnostics@) =~= outline_diagnostics(
        text@,
        outline@,
        key_views(keys@),
    ));
    diagnostics
}

/// Validate a witness document.
pub fn validate(text: &str) -> (r: Vec<Diagnostic>)
    ensures
        diagnostic_views(r@) == outline_diagnostics(
            text@,
            outline_of(text@),
            key_positions_of(text@),
        ),
{
    let outline: Outline = json_outline(text);
    let keys: Vec<(String, Position)> = key_positions(text);
    validate_outline(text, &outline, &keys)
}

} // verus!
