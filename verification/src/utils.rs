//! The call around a cursor: the function that is called and the argument that is written.

use vstd::prelude::*;

use crate::chars::{
    first_index, head_line, is_alnum, join3, same_chars, split_line, to_chars, to_text, trim_end,
    trim_end_of, utf8_len,
};
use crate::completion::types::{FunctionTemplate, TemplateView};
use crate::order::texts;
use crate::protocol::{opt_text, Position};
use crate::syntax::{copy_texts, CallKind};

verus! {

/// The number of `close` characters from index `at` on that no `open` character matches, reading
/// from the end; an `open` without a partner counts for nothing.
pub open spec fn closing_depth(line: Seq<char>, at: int, open_char: char, close: char) -> nat
    decreases line.len() - at,
{
    if at < 0 || at >= line.len() {
        0
    } else {
        let rest = closing_depth(line, at + 1, open_char, close);
        if line[at] == close {
            rest + 1
        } else if line[at] == open_char && rest > 0 {
            (rest - 1) as nat
        } else {
            rest
        }
    }
}

/// Whether the parenthesis at `at` is still open at the end of the line.
pub open spec fn opens_call(line: Seq<char>, at: int) -> bool {
    0 <= at < line.len() && line[at] == '(' && closing_depth(line, at + 1, '(', ')') == 0
}

/// Whether `at` is the innermost parenthesis that is still open at the end of the line.
pub open spec fn innermost_call(line: Seq<char>, at: int) -> bool {
    opens_call(line, at) && forall|k: int| at < k < line.len() ==> !#[trigger] opens_call(line, k)
}

/// Whether the comma at `at` stands between arguments of the call that is open at the end of the
/// line: in no nested call, array or list of generic arguments.
pub open spec fn separates(line: Seq<char>, at: int) -> bool {
    &&& 0 <= at < line.len()
    &&& line[at] == ','
    &&& closing_depth(line, at + 1, '(', ')') == 0
    &&& closing_depth(line, at + 1, '[', ']') == 0
    &&& closing_depth(line, at + 1, '<', '>') == 0
}

/// The number of commas from index `at` on that stand between arguments.
pub open spec fn separators(line: Seq<char>, at: int) -> nat
    decreases line.len() - at,
{
    if at < 0 || at >= line.len() {
        0
    } else {
        separators(line, at + 1) + (if separates(line, at) {
            1nat
        } else {
            0nat
        })
    }
}

/// How many more closing than opening angle brackets `text` has from index `at` on.
pub open spec fn angle_excess(text: Seq<char>, at: int) -> int
    decreases text.len() - at,
{
    if at < 0 || at >= text.len() {
        0
    } else {
        angle_excess(text, at + 1) + (if text[at] == '>' {
            1int
        } else if text[at] == '<' {
            -1int
        } else {
            0int
        })
    }
}

/// Whether the generic arguments that end `text` begin at `at`: with the bracket that matches the
/// last one.
pub open spec fn generics_begin(text: Seq<char>, at: int) -> bool {
    &&& 0 <= at < text.len()
    &&& text.last() == '>'
    &&& angle_excess(text, at) == 0
    &&& forall|k: int| at < k < text.len() ==> #[trigger] angle_excess(text, k) != 0
}

/// `text` without a pair of colons at its end.
pub open spec fn strip_path_separator(text: Seq<char>) -> Seq<char> {
    if text.len() >= 2 && text[text.len() - 1] == ':' && text[text.len() - 2] == ':' {
        text.take(text.len() - 2)
    } else {
        text
    }
}

/// `text` without the generic arguments at its end and the `::` before them.
pub open spec fn strip_generics(text: Seq<char>) -> Seq<char> {
    if exists|at: int| #[trigger] generics_begin(text, at) {
        strip_path_separator(text.take(choose|at: int| #[trigger] generics_begin(text, at)))
    } else {
        text
    }
}

/// Whether `c` may stand in a qualified name.
pub open spec fn is_name_char(c: char) -> bool {
    is_alnum(c) || c == '_' || c == ':'
}

/// The longest end of `text` that is made of name characters.
pub open spec fn name_at_end(text: Seq<char>) -> Seq<char>
    decreases text.len(),
{
    if text.len() > 0 && is_name_char(text.last()) {
        name_at_end(text.drop_last()).push(text.last())
    } else {
        Seq::empty()
    }
}

/// `text` without the colons at its beginning.
pub open spec fn skip_colons(text: Seq<char>) -> Seq<char>
    decreases text.len(),
{
    if text.len() > 0 && text[0] == ':' {
        skip_colons(text.drop_first())
    } else {
        text
    }
}

/// The name of the function that is called where `text` stands before the opening parenthesis.
pub open spec fn called_name(text: Seq<char>) -> Seq<char> {
    skip_colons(name_at_end(strip_generics(trim_end_of(text))))
}

/// The function and the argument index of the call that is open at the end of `line`.
pub open spec fn call_at_end(line: Seq<char>) -> Option<(Seq<char>, nat)> {
    if exists|at: int| #[trigger] innermost_call(line, at) {
        let at = choose|at: int| #[trigger] innermost_call(line, at);
        let name = called_name(line.take(at));
        if name.len() > 0 {
            Some((name, separators(line, at + 1)))
        } else {
            None
        }
    } else {
        None
    }
}

/// At most one parenthesis is the innermost open one.
proof fn lemma_innermost_unique(line: Seq<char>, a: int, b: int)
    requires
        innermost_call(line, a),
        innermost_call(line, b),
    ensures
        a == b,
{
    if a < b {
        assert(!opens_call(line, b));
    } else if b < a {
        assert(!opens_call(line, a));
    }
}

/// The bracket at which the generic arguments at the end of `chars` begin.
fn find_generics(chars: &[char]) -> (r: Option<usize>)
    requires
        chars@.len() > 0,
        chars@.last() == '>',
    ensures
        match r {
            Some(at) => generics_begin(chars@, at as int),
            None => forall|at: int| !#[trigger] generics_begin(chars@, at),
        },
{
    let mut depth: usize = 0;
    let mut n: usize = chars.len();
    while n > 0
        invariant
            n <= chars@.len(),
            chars@.len() > 0,
            chars@.last() == '>',
            depth == angle_excess(chars@, n as int),
            depth <= chars@.len() - n,
            n < chars@.len() ==> depth > 0,
            forall|k: int| n <= k < chars@.len() ==> #[trigger] angle_excess(chars@, k) != 0,
        decreases n,
    {
        let c: char = chars[n - 1];
        if c == '>' {
            depth = depth + 1;
        } else if c == '<' {
            depth = depth - 1;
            if depth == 0 {
                return Some(n - 1);
            }
        }
        n = n - 1;
    }
    assert forall|at: int| !#[trigger] generics_begin(chars@, at) by {
        if 0 <= at < chars@.len() {
            assert(angle_excess(chars@, at) != 0);
        }
    }
    None
}

/// `chars` without the generic arguments at the end and the `::` before them.
fn without_generics(chars: &[char]) -> (r: &[char])
    ensures
        r@ == strip_generics(chars@),
{
    if chars.len() == 0 || chars[chars.len() - 1] != '>' {
        assert forall|at: int| !#[trigger] generics_begin(chars@, at) by {}
        return chars;
    }
    match find_generics(chars) {
        None => chars,
        Some(at) => {
            proof {
                let other = choose|other: int| #[trigger] generics_begin(chars@, other);
                if other < at {
                    assert(angle_excess(chars@, at as int) != 0);
                } else if at < other {
                    assert(angle_excess(chars@, other) != 0);
                }
                assert(chars@.subrange(0, at as int) == chars@.take(at as int));
            }
            if at >= 2 && chars[at - 1] == ':' && chars[at - 2] == ':' {
                assert(chars@.subrange(0, at - 2) == chars@.take(at as int).take(at - 2));
                vstd::slice::slice_subrange(chars, 0, at - 2)
            } else {
                vstd::slice::slice_subrange(chars, 0, at)
            }
        },
    }
}

/// Extract the name of the function that is called from the text before an opening parenthesis,
/// such as `func_name`, `jet::add_32` or `fold::<f, 8>`.
pub fn extract_function_name(text: &str) -> (r: Option<String>)
    ensures
        match r {
            Some(name) => name@ == called_name(text@) && name@.len() > 0,
            None => called_name(text@).len() == 0,
        },
{
    let chars: Vec<char> = to_chars(text);
    let bare: &[char] = without_generics(trim_end(chars.as_slice()));
    let mut start: usize = bare.len();
    assert(bare@.take(start as int) == bare@);
    assert(bare@.subrange(start as int, bare@.len() as int) == Seq::<char>::empty());
    while start > 0 && (bare[start - 1].is_alphanumeric() || bare[start - 1] == '_' || bare[start
        - 1] == ':')
        invariant
            start <= bare@.len(),
            name_at_end(bare@) == name_at_end(bare@.take(start as int)) + bare@.subrange(
                start as int,
                bare@.len() as int,
            ),
        decreases start,
    {
        proof {
            let shorter = bare@.take(start - 1);
            assert(bare@.take(start as int).drop_last() == shorter);
            assert(bare@.subrange(start - 1, bare@.len() as int) == seq![bare@[start - 1]]
                + bare@.subrange(start as int, bare@.len() as int));
        }
        start = start - 1;
    }
    assert(name_at_end(bare@) == bare@.subrange(start as int, bare@.len() as int));
    let ghost name = name_at_end(bare@);
    while start < bare.len() && bare[start] == ':'
        invariant
            start <= bare@.len(),
            skip_colons(name) == skip_colons(bare@.subrange(start as int, bare@.len() as int)),
        decreases bare@.len() - start,
    {
        assert(bare@.subrange(start as int, bare@.len() as int).drop_first() == bare@.subrange(
            start + 1,
            bare@.len() as int,
        ));
        start = start + 1;
    }
    if start == bare.len() {
        None
    } else {
        Some(to_text(vstd::slice::slice_subrange(bare, start, bare.len())))
    }
}

/// Find the call that is open at the end of a line: the function that is called and the index of
/// the argument that is written, or `u32::MAX` where the index is greater.
pub fn find_function_call_context(line: &str) -> (r: Option<(String, u32)>)
    ensures
        match r {
            Some((name, index)) => match call_at_end(line@) {
                Some((called, count)) => called == name@ && index == (if count <= u32::MAX {
                    count
                } else {
                    u32::MAX as nat
                }),
                None => false,
            },
            None => call_at_end(line@) is None,
        },
{
    let chars: Vec<char> = to_chars(line);
    let mut paren_depth: usize = 0;
    let mut bracket_depth: usize = 0;
    let mut angle_depth: usize = 0;
    let mut comma_count: u32 = 0;
    let length: usize = chars.len();
    let mut n: usize = length;
    // Scan from the end for the innermost parenthesis that is not closed.
    while n > 0
        invariant
            chars@ == line@,
            n <= length == chars@.len(),
            paren_depth == closing_depth(chars@, n as int, '(', ')'),
            bracket_depth == closing_depth(chars@, n as int, '[', ']'),
            angle_depth == closing_depth(chars@, n as int, '<', '>'),
            paren_depth <= chars@.len() - n,
            bracket_depth <= chars@.len() - n,
            angle_depth <= chars@.len() - n,
            comma_count == (if separators(chars@, n as int) <= u32::MAX {
                separators(chars@, n as int)
            } else {
                u32::MAX as nat
            }),
            forall|k: int| n <= k < chars@.len() ==> !#[trigger] opens_call(chars@, k),
        decreases n,
    {
        let c: char = chars[n - 1];
        if c == ')' {
            paren_depth = paren_depth + 1;
        } else if c == '(' {
            if paren_depth > 0 {
                paren_depth = paren_depth - 1;
            } else {
                let at: usize = n - 1;
                proof {
                    assert(innermost_call(chars@, at as int));
                    let other = choose|other: int| #[trigger] innermost_call(chars@, other);
                    lemma_innermost_unique(chars@, at as int, other);
                    assert(chars@.subrange(0, at as int) == chars@.take(at as int));
                }
                let before: String = to_text(vstd::slice::slice_subrange(chars.as_slice(), 0, at));
                return match extract_function_name(before.as_str()) {
                    Some(name) => Some((name, comma_count)),
                    None => None,
                };
            }
        } else if c == ']' {
            bracket_depth = bracket_depth + 1;
        } else if c == '[' {
            if bracket_depth > 0 {
                bracket_depth = bracket_depth - 1;
            }
        } else if c == '>' {
            angle_depth = angle_depth + 1;
        } else if c == '<' {
            if angle_depth > 0 {
                angle_depth = angle_depth - 1;
            }
        } else if c == ',' && paren_depth == 0 && bracket_depth == 0 && angle_depth == 0 {
            if comma_count < u32::MAX {
                comma_count = comma_count + 1;
            }
        }
        n = n - 1;
    }
    assert forall|at: int| !#[trigger] innermost_call(chars@, at) by {
        if 0 <= at < chars@.len() {
            assert(!opens_call(chars@, at));
        }
    }
    None
}

/// Whether a pattern stands at an index of a line.
pub open spec fn stands_at(line: Seq<char>, pattern: Seq<char>, i: int) -> bool {
    0 <= i && i + pattern.len() <= line.len() && line.subrange(i, i + pattern.len()) == pattern
}

/// The first index of a line, from `i` on, at which a pattern stands.
pub open spec fn first_place(line: Seq<char>, pattern: Seq<char>, i: int) -> Option<int>
    decreases line.len() - i + 1,
{
    if i < 0 || i > line.len() {
        None
    } else if stands_at(line, pattern, i) {
        Some(i)
    } else {
        first_place(line, pattern, i + 1)
    }
}

/// The line and the byte column at which a pattern first stands in a text, where the text is what
/// follows line `n`.
pub open spec fn place_in_lines(text: Seq<char>, pattern: Seq<char>, n: nat) -> Option<(nat, nat)>
    decreases text.len(),
{
    if text.len() == 0 {
        None
    } else {
        match first_place(head_line(text), pattern, 0) {
            Some(i) => Some((n, utf8_len(head_line(text).take(i)))),
            None => if 0 <= first_index(text, '\n') < text.len() {
                place_in_lines(text.skip(first_index(text, '\n') + 1), pattern, n + 1)
            } else {
                None
            },
        }
    }
}

/// The position of a key, in quotes, in a text. One that a position cannot hold has none.
pub open spec fn key_position(text: Seq<char>, key: Seq<char>) -> Option<Position> {
    match place_in_lines(text, "\""@ + key + "\""@, 0) {
        Some((line, column)) => if line <= u32::MAX && column <= u32::MAX {
            Some(Position { line: line as u32, character: column as u32 })
        } else {
            None
        },
        None => None,
    }
}

/// Finds the first index of a line at which a pattern stands.
fn find_place(line: &[char], pattern: &[char]) -> (r: Option<usize>)
    ensures
        match r {
            Some(i) => first_place(line@, pattern@, 0) == Some(i as int) && i <= line@.len(),
            None => first_place(line@, pattern@, 0) is None,
        },
{
    let length: usize = line.len();
    let width: usize = pattern.len();
    let mut i: usize = 0;
    while i < length && width <= length - i
        invariant
            i <= length == line@.len(),
            width == pattern@.len(),
            first_place(line@, pattern@, 0) == first_place(line@, pattern@, i as int),
        decreases length - i,
    {
        if same_chars(vstd::slice::slice_subrange(line, i, i + width), pattern) {
            return Some(i);
        }
        i = i + 1;
    }
    proof {
        if width > 0 {
            lemma_no_place(line@, pattern@, i as int);
        }
    }
    if width == 0 {
        assert(line@.subrange(i as int, i as int) =~= pattern@);
        return Some(i);
    }
    None
}

/// A pattern stands nowhere where there is no room for it.
proof fn lemma_no_place(line: Seq<char>, pattern: Seq<char>, i: int)
    requires
        0 <= i,
        pattern.len() > 0,
        i + pattern.len() > line.len(),
    ensures
        first_place(line, pattern, i) is None,
    decreases line.len() - i + 1,
{
    if i <= line.len() {
        lemma_no_place(line, pattern, i + 1);
    }
}

/// The number of bytes of some characters.
fn bytes_of(chars: &[char]) -> (n: usize)
    ensures
        n == utf8_len(chars@),
{
    let text: String = to_text(chars);
    crate::chars::byte_len(text.as_str())
}

/// The position of a key, in quotes, in a text.
pub fn find_key_position(text: &str, key: &str) -> (r: Option<Position>)
    ensures
        r == key_position(text@, key@),
{
    let search: Vec<char> = to_chars(join3("\"", key, "\"").as_str());
    let chars: Vec<char> = to_chars(text);
    let mut rest: &[char] = chars.as_slice();
    let mut line: usize = 0;
    while rest.len() > 0
        invariant
            line + rest@.len() <= usize::MAX,
            place_in_lines(text@, search@, 0) == place_in_lines(rest@, search@, line as nat),
            search@ == "\""@ + key@ + "\""@,
        decreases rest@.len(),
    {
        let (head, behind): (&[char], Option<&[char]>) = split_line(rest);
        if let Some(i) = find_place(head, search.as_slice()) {
            let before: &[char] = vstd::slice::slice_subrange(head, 0, i);
            assert(before@ == head@.take(i as int));
            let column: usize = bytes_of(before);
            if line > u32::MAX as usize || column > u32::MAX as usize {
                return None;
            }
            return Some(Position::new(line as u32, column as u32));
        }
        proof {
            crate::chars::lemma_first_index(rest@, '\n');
        }
        match behind {
            Some(more) => {
                rest = more;
                line = line + 1;
            },
            None => return None,
        }
    }
    None
}

/// A callable as the editor shows it while its arguments are written.
#[derive(Debug)]
pub struct SignatureInformation {
    pub label: String,
    /// What the description says, in Markdown.
    pub documentation: Option<String>,
    pub parameters: Vec<String>,
}

/// What a [`SignatureInformation`] says.
#[verifier::ext_equal]
pub struct SignatureView {
    pub label: Seq<char>,
    pub documentation: Option<Seq<char>>,
    pub parameters: Seq<Seq<char>>,
}

impl View for SignatureInformation {
    type V = SignatureView;

    open spec fn view(&self) -> SignatureView {
        SignatureView {
            label: self.label@,
            documentation: opt_text(self.documentation),
            parameters: texts(self.parameters@),
        }
    }
}

/// A template as a signature. An empty description is none.
pub open spec fn signature_of(template: TemplateView) -> SignatureView {
    SignatureView {
        label: template.declaration(),
        documentation: if template.description.len() == 0 {
            None
        } else {
            Some(template.description)
        },
        parameters: template.args,
    }
}

/// A template as a signature.
pub fn create_signature_info(template: &FunctionTemplate) -> (r: SignatureInformation)
    ensures
        r@ == signature_of(template@),
{
    let documentation: Option<String> = if template.description.as_str().is_empty() {
        None
    } else {
        Some(template.description.clone())
    };
    let r = SignatureInformation {
        label: template.get_declaration(),
        documentation,
        parameters: copy_texts(&template.args),
    };
    assert(r@ =~= signature_of(template@));
    r
}

/// How the built-in functions are shown.
#[derive(Debug)]
pub struct BuiltinTemplates {
    pub entries: Vec<(CallKind, FunctionTemplate)>,
}

impl View for BuiltinTemplates {
    type V = Seq<(CallKind, TemplateView)>;

    open spec fn view(&self) -> Seq<(CallKind, TemplateView)> {
        Seq::new(self.entries@.len(), |i: int| (self.entries@[i].0, self.entries@[i].1@))
    }
}

/// The first template of a kind of call.
pub open spec fn builtin_template(
    templates: Seq<(CallKind, TemplateView)>,
    kind: CallKind,
) -> Option<TemplateView>
    decreases templates.len(),
{
    if templates.len() == 0 {
        None
    } else if templates[0].0 == kind {
        Some(templates[0].1)
    } else {
        builtin_template(templates.drop_first(), kind)
    }
}

impl BuiltinTemplates {
    /// The first template of a kind of call.
    pub fn match_callname(&self, kind: CallKind) -> (r: Option<&FunctionTemplate>)
        ensures
            match r {
                Some(template) => builtin_template(self@, kind) == Some(template@),
                None => builtin_template(self@, kind) is None,
            },
    {
        let ghost shown = self@;
        let mut i: usize = 0;
        assert(shown.skip(0) == shown);
        while i < self.entries.len()
            invariant
                i <= self.entries@.len(),
                shown == self@,
                builtin_template(shown, kind) == builtin_template(shown.skip(i as int), kind),
            decreases self.entries@.len() - i,
        {
            assert(shown.skip(i as int)[0] == (
                self.entries@[i as int].0,
                self.entries@[i as int].1@,
            ));
            assert(shown.skip(i as int).drop_first() == shown.skip(i + 1));
            if self.entries[i].0 == kind {
                return Some(&self.entries[i].1);
            }
            i = i + 1;
        }
        None
    }
}

/// The kind of call that the name of a built-in function means.
pub open spec fn builtin_kind(name: Seq<char>) -> Option<CallKind> {
    if name == "unwrap_left"@ {
        Some(CallKind::UnwrapLeft)
    } else if name == "unwrap_right"@ {
        Some(CallKind::UnwrapRight)
    } else if name == "unwrap"@ {
        Some(CallKind::Unwrap)
    } else if name == "is_none"@ {
        Some(CallKind::IsNone)
    } else if name == "assert!"@ {
        Some(CallKind::Assert)
    } else if name == "panic!"@ {
        Some(CallKind::Panic)
    } else if name == "dbg!"@ {
        Some(CallKind::Debug)
    } else {
        None
    }
}

/// The signature of a built-in function, by its name.
pub open spec fn builtin_signature(
    templates: Seq<(CallKind, TemplateView)>,
    name: Seq<char>,
) -> Option<SignatureView> {
    match builtin_kind(name) {
        Some(kind) => match builtin_template(templates, kind) {
            Some(template) => Some(signature_of(template)),
            None => None,
        },
        None => None,
    }
}

/// What an optional signature says.
pub open spec fn opt_signature(signature: Option<SignatureInformation>) -> Option<SignatureView> {
    match signature {
        Some(signature) => Some(signature@),
        None => None,
    }
}

/// The signature of a built-in function, by its name.
pub fn find_builtin_signature(name: &str, templates: &BuiltinTemplates) -> (r: Option<
    SignatureInformation,
>)
    ensures
        opt_signature(r) == builtin_signature(templates@, name@),
{
    let kind: CallKind = if crate::chars::same(name, "unwrap_left") {
        CallKind::UnwrapLeft
    } else if crate::chars::same(name, "unwrap_right") {
        CallKind::UnwrapRight
    } else if crate::chars::same(name, "unwrap") {
        CallKind::Unwrap
    } else if crate::chars::same(name, "is_none") {
        CallKind::IsNone
    } else if crate::chars::same(name, "assert!") {
        CallKind::Assert
    } else if crate::chars::same(name, "panic!") {
        CallKind::Panic
    } else if crate::chars::same(name, "dbg!") {
        CallKind::Debug
    } else {
        return None;
    };
    match templates.match_callname(kind) {
        Some(template) => Some(create_signature_info(template)),
        None => None,
    }
}

} // verus!
