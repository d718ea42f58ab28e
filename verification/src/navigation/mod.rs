//! Definitions, references and the names under a cursor.

use vstd::prelude::*;

use ropey::Rope;

use crate::analysis::sources::function_of;
use crate::analysis::{AnalysisSnapshot, SnapshotView};
use crate::chars::{join3, same};
use crate::error::{conversion_failed, LspError};
use crate::lexer::{lex, lexed, token_fits, token_views, Token, TokenKind, TokenView};
use crate::protocol::{position_le, Position, Range};
use crate::rope::{byte_slice, rope_byte_slice, rope_chars, rope_text};
use crate::syntax::{
    use_item_views, Function, FunctionView, UseDecl, UseItem, UseItemView, UseView,
};
use crate::text::{
    encloses, law_positions_follow_offsets, lemma_inner_slice, lemma_slice_length,
    offset_failure, offset_to_position, position_of_offset, span_contains, Span,
};

pub mod definition;
pub mod laws;
pub mod reference_laws;
pub mod references;

verus! {

/// The token behind the first `fn` that is followed by a name.
pub open spec fn name_token(tokens: Seq<TokenView>, name: Seq<char>) -> Option<TokenView>
    decreases tokens.len(),
{
    if tokens.len() < 2 {
        None
    } else if tokens[0].kind == TokenKind::Fn && tokens[1].kind == TokenKind::Ident
        && tokens[1].text == name {
        Some(tokens[1])
    } else {
        name_token(tokens.drop_first(), name)
    }
}

/// The text of the source of a function.
pub open spec fn text_of_source(snapshot: SnapshotView, file_id: usize) -> Option<Seq<char>> {
    if file_id == 0 {
        Some(snapshot.text)
    } else if snapshot.sources.dom().contains(file_id as nat) {
        Some(snapshot.sources[file_id as nat].text)
    } else {
        None
    }
}

/// The range of a function's name in a text, where the definition has some tokens, or why it is not
/// found; an error without a text is one of positions.
pub open spec fn name_range_among(
    text: Seq<char>,
    function: FunctionView,
    tokens: Seq<TokenView>,
) -> Result<Range, Option<Seq<char>>> {
    let from = function.span.start as nat;
    match name_token(tokens, function.name) {
        None => Err(
            Some("Function with name "@ + function.name + " not found inside its source span"@),
        ),
        Some(token) => match (
            position_of_offset(text, from + token.start),
            position_of_offset(text, from + token.end),
        ) {
            (Some(start), Some(end)) => Ok(Range { start, end }),
            _ => Err(None),
        },
    }
}

/// The range of a function's name in its definition, or why it is not found.
pub open spec fn name_range_of(snapshot: SnapshotView, function: FunctionView) -> Result<
    Range,
    Option<Seq<char>>,
> {
    let span = function.span;
    match text_of_source(snapshot, span.file_id) {
        None => Err(Some("Source file for function "@ + function.name + " not found"@)),
        Some(text) => match byte_slice(text, span.start as nat, span.end as nat) {
            None => Err(
                Some("Source span for function "@ + function.name + " is outside its document"@),
            ),
            Some(source) => match lexed(source) {
                None => Err(Some("Function with name "@ + function.name + " not found"@)),
                Some(tokens) => name_range_among(text, function, tokens),
            },
        },
    }
}

/// Whether an error says what a failed search for a name says.
pub open spec fn says(error: LspError, failure: Option<Seq<char>>) -> bool {
    match failure {
        Some(message) => match error {
            LspError::FunctionNotFound(text) => text@ == message,
            _ => false,
        },
        None => conversion_failed(error, offset_failure()),
    }
}

/// Whether a name stands at a range of a text.
pub open spec fn reads(text: Seq<char>, range: Range, name: Seq<char>) -> bool {
    exists|start: nat, end: nat|
        position_of_offset(text, start) == Some(range.start) && position_of_offset(text, end)
            == Some(range.end) && #[trigger] byte_slice(text, start, end) == Some(name)
}

/// Whether a range lies inside of a function, as far as the ends of the function have positions, and
/// the name of the function stands there.
pub open spec fn lies_in(snapshot: SnapshotView, function: FunctionView, range: Range) -> bool {
    match text_of_source(snapshot, function.span.file_id) {
        Some(text) => {
            &&& position_le(range.start, range.end)
            &&& position_of_offset(text, function.span.start as nat) matches Some(start)
                ==> position_le(start, range.start)
            &&& position_of_offset(text, function.span.end as nat) matches Some(end)
                ==> position_le(range.end, end)
            &&& reads(text, range, function.name)
        },
        None => false,
    }
}

/// Finds the token behind the first `fn` that is followed by a name.
fn find_name_token<'a>(tokens: &'a Vec<Token>, name: &str) -> (r: Option<&'a Token>)
    ensures
        match r {
            Some(token) => name_token(token_views(tokens@), name@) == Some(token@) && exists|i: int|
                0 <= i < tokens@.len() && #[trigger] tokens@[i] == *token,
            None => name_token(token_views(tokens@), name@) is None,
        },
{
    let ghost shown = token_views(tokens@);
    let mut i: usize = 0;
    assert(shown.skip(0) == shown);
    while i < tokens.len() && 1 < tokens.len() - i
        invariant
            i <= tokens@.len(),
            shown == token_views(tokens@),
            name_token(shown, name@) == name_token(shown.skip(i as int), name@),
        decreases tokens@.len() - i,
    {
        assert(shown.skip(i as int)[0] == tokens@[i as int]@);
        assert(shown.skip(i as int)[1] == tokens@[i + 1]@);
        assert(shown.skip(i as int).drop_first() == shown.skip(i + 1));
        if tokens[i].kind == TokenKind::Fn && tokens[i + 1].kind == TokenKind::Ident && same(
            tokens[i + 1].text.as_str(),
            name,
        ) {
            return Some(&tokens[i + 1]);
        }
        i = i + 1;
    }
    None
}

/// The range of a function's name in the text of its source.
fn name_range_in(function: &Function, source: &Rope) -> (r: Result<Range, LspError>)
    ensures
        forall|snapshot: SnapshotView|
            text_of_source(snapshot, function.span.file_id) == Some(rope_chars(*source))
                ==> match r {
                Ok(range) => #[trigger] name_range_of(snapshot, function@) == Ok::<
                    Range,
                    Option<Seq<char>>,
                >(range) && lies_in(snapshot, function@, range),
                Err(error) => match name_range_of(snapshot, function@) {
                    Ok(_) => false,
                    Err(failure) => says(error, failure),
                },
            },
{
    let span: Span = function.span;
    let text: String = match rope_byte_slice(source, span.start, span.end) {
        Some(text) => text,
        None => {
            return Err(
                LspError::FunctionNotFound(
                    join3(
                        "Source span for function ",
                        function.name.as_str(),
                        " is outside its document",
                    ),
                ),
            );
        },
    };
    let tokens: Vec<Token> = match lex(text.as_str()) {
        Some(tokens) => tokens,
        None => {
            return Err(
                LspError::FunctionNotFound(
                    join3("Function with name ", function.name.as_str(), " not found"),
                ),
            );
        },
    };
    proof {
        let whole = rope_chars(*source);
        let from = span.start as nat;
        let to = span.end as nat;
        let shown = token_views(tokens@);
        lemma_slice_length(whole, from, to);
        assert forall|i: int| 0 <= i < tokens@.len() implies {
            &&& (#[trigger] tokens@[i]).start <= tokens@[i].end
            &&& from + tokens@[i].end <= to
        } by {
            assert(token_fits(tokens@[i]@, text@));
        }
        lemma_name_token(shown, function.name@);
        if let Ok(range) = name_range_among(whole, function@, shown) {
            let token = name_token(shown, function.name@)->0;
            let i = choose|i: int| 0 <= i < shown.len() && shown[i] == token;
            assert(token == tokens@[i]@);
            lemma_inner_range(whole, from, to, from + token.start, from + token.end, range);
            assert(token_fits(tokens@[i]@, text@));
            lemma_inner_slice(whole, from, to, token.start, token.end);
            assert(byte_slice(whole, from + token.start, from + token.end) == Some(function.name@));
            assert(reads(whole, range, function.name@));
        }
    }
    name_range_with(function, source, &tokens)
}

/// The range of a function's name, where its definition has some tokens.
pub fn name_range_with(function: &Function, source: &Rope, tokens: &Vec<Token>) -> (r: Result<
    Range,
    LspError,
>)
    requires
        forall|i: int|
            0 <= i < tokens@.len() ==> {
                &&& (#[trigger] tokens@[i]).start <= tokens@[i].end
                &&& function.span.start + tokens@[i].end <= usize::MAX
            },
    ensures
        match r {
            Ok(range) => name_range_among(rope_chars(*source), function@, token_views(tokens@))
                == Ok::<Range, Option<Seq<char>>>(range),
            Err(error) => match name_range_among(
                rope_chars(*source),
                function@,
                token_views(tokens@),
            ) {
                Ok(_) => false,
                Err(failure) => says(error, failure),
            },
        },
{
    match find_name_token(tokens, function.name.as_str()) {
        None => Err(
            LspError::FunctionNotFound(
                join3(
                    "Function with name ",
                    function.name.as_str(),
                    " not found inside its source span",
                ),
            ),
        ),
        Some(token) => {
            let start: Position = match offset_to_position(
                function.span.start + token.start,
                source,
            ) {
                Ok(start) => start,
                Err(error) => return Err(error),
            };
            match offset_to_position(function.span.start + token.end, source) {
                Ok(end) => Ok(Range::new(start, end)),
                Err(error) => Err(error),
            }
        },
    }
}

/// The token behind an `fn` is one of the tokens, and holds the name.
proof fn lemma_name_token(tokens: Seq<TokenView>, name: Seq<char>)
    ensures
        name_token(tokens, name) matches Some(token) ==> token.kind == TokenKind::Ident
            && token.text == name && exists|i: int| 0 <= i < tokens.len() && tokens[i] == token,
    decreases tokens.len(),
{
    if tokens.len() >= 2 {
        lemma_name_token(tokens.drop_first(), name);
        if let Some(token) = name_token(tokens, name) {
            if tokens[1] != token {
                let rest = tokens.drop_first();
                let i = choose|i: int| 0 <= i < rest.len() && rest[i] == token;
                assert(tokens[i + 1] == token);
            }
        }
    }
}

/// The range between two offsets lies in the range between two others around them.
proof fn lemma_inner_range(text: Seq<char>, from: nat, to: nat, start: nat, end: nat, range: Range)
    requires
        from <= start <= end <= to,
        position_of_offset(text, start) == Some(range.start),
        position_of_offset(text, end) == Some(range.end),
    ensures
        position_le(range.start, range.end),
        position_of_offset(text, from) matches Some(first) ==> position_le(first, range.start),
        position_of_offset(text, to) matches Some(last) ==> position_le(range.end, last),
{
    law_positions_follow_offsets(text, start, end, range.start, range.end);
    if let Some(first) = position_of_offset(text, from) {
        law_positions_follow_offsets(text, from, start, first, range.start);
    }
    if let Some(last) = position_of_offset(text, to) {
        law_positions_follow_offsets(text, end, to, range.end, last);
    }
}

impl AnalysisSnapshot {
    /// The range of a function's name in its definition. It lies inside of the function, and the
    /// name stands there.
    pub fn find_function_name_range(&self, function: &Function) -> (r: Result<Range, LspError>)
        ensures
            match r {
                Ok(range) => name_range_of(self@, function@) == Ok::<Range, Option<Seq<char>>>(
                    range,
                ) && lies_in(self@, function@, range),
                Err(error) => match name_range_of(self@, function@) {
                    Ok(_) => false,
                    Err(failure) => says(error, failure),
                },
            },
    {
        if function.span.file_id == 0 {
            return name_range_in(function, &self.text);
        }
        match self.sources.get(function.span.file_id) {
            Some(source) => name_range_in(function, &source.text),
            None => Err(
                LspError::FunctionNotFound(
                    join3("Source file for function ", function.name.as_str(), " not found"),
                ),
            ),
        }
    }
}

/// The import around a span: of those that enclose it the shortest, and of several as short the
/// first.
pub open spec fn import_around(uses: Seq<UseView>, span: Span) -> Option<UseView>
    decreases uses.len(),
{
    if uses.len() == 0 {
        None
    } else {
        let before = import_around(uses.drop_last(), span);
        let last = uses.last();
        if encloses(last.span, span) {
            match before {
                Some(other) => if span_length(last.span) < span_length(other.span) {
                    Some(last)
                } else {
                    before
                },
                None => Some(last),
            }
        } else {
            before
        }
    }
}

/// The number of bytes of a span.
pub open spec fn span_length(span: Span) -> nat {
    if span.start <= span.end {
        (span.end - span.start) as nat
    } else {
        0
    }
}

/// The tokens of an import that name something: those behind its `use`, up to its end.
pub open spec fn import_names(tokens: Seq<TokenView>, span: Span) -> Seq<TokenView>
    decreases tokens.len(),
{
    if tokens.len() == 0 {
        Seq::empty()
    } else {
        let before = import_names(tokens.drop_last(), span);
        let token = tokens.last();
        if token.start >= span.start && token.end <= span.end && has_use(tokens.drop_last(), span)
            && (token.kind == TokenKind::Crate || token.kind == TokenKind::Ident) {
            before.push(token)
        } else {
            before
        }
    }
}

/// Whether there is a `use` among the tokens inside of a span.
pub open spec fn has_use(tokens: Seq<TokenView>, span: Span) -> bool
    decreases tokens.len(),
{
    tokens.len() > 0 && (has_use(tokens.drop_last(), span) || (tokens.last().kind == TokenKind::Use
        && tokens.last().start >= span.start && tokens.last().end <= span.end))
}

/// The index of the first name that encloses a span of the root source.
pub open spec fn name_around(names: Seq<TokenView>, span: Span) -> Option<nat>
    decreases names.len(),
{
    if names.len() == 0 {
        None
    } else if span.file_id == 0 && names[0].start <= span.start && span.end <= names[0].end {
        Some(0)
    } else {
        match name_around(names.drop_first(), span) {
            Some(index) => Some(index + 1),
            None => None,
        }
    }
}

/// The imported item that the name at an index belongs to: each item has its name, and behind it
/// the name it gets here where it has another.
pub open spec fn item_named(items: Seq<UseItemView>, index: int) -> Option<UseItemView>
    decreases items.len(),
{
    if items.len() == 0 || index < 0 {
        None
    } else if index == 0 || (index == 1 && items[0].alias is Some) {
        Some(items[0])
    } else {
        item_named(
            items.drop_first(),
            index - (if items[0].alias is Some {
                2int
            } else {
                1int
            }),
        )
    }
}

/// The function that the import under a span of the root brings in, where the root has some tokens.
pub open spec fn imported_among(
    snapshot: SnapshotView,
    span: Span,
    tokens: Seq<TokenView>,
) -> Option<FunctionView> {
    match import_around(snapshot.use_declarations, span) {
        None => None,
        Some(declaration) => match name_around(import_names(tokens, declaration.span), span) {
            None => None,
            Some(index) => match item_named(declaration.items, index - declaration.path.len()) {
                None => None,
                Some(item) => function_of(snapshot.functions, item.local()),
            },
        },
    }
}

/// The function that the import under a span of the root brings in.
pub open spec fn imported_function(snapshot: SnapshotView, span: Span) -> Option<FunctionView> {
    match lexed(snapshot.text) {
        None => None,
        Some(tokens) => imported_among(snapshot, span, tokens),
    }
}

/// The index of the first name of an import that encloses a span.
fn find_name_around(tokens: &Vec<Token>, declaration: &Span, span: &Span) -> (r: Option<usize>)
    ensures
        match r {
            Some(index) => name_around(import_names(token_views(tokens@), *declaration), *span)
                == Some(index as nat),
            None => name_around(import_names(token_views(tokens@), *declaration), *span) is None,
        },
{
    let ghost shown = token_views(tokens@);
    let mut used: bool = false;
    let mut count: usize = 0;
    let mut i: usize = 0;
    while i < tokens.len()
        invariant
            i <= tokens@.len(),
            shown == token_views(tokens@),
            used == has_use(shown.take(i as int), *declaration),
            count <= i,
            count == import_names(shown.take(i as int), *declaration).len(),
            name_around(import_names(shown.take(i as int), *declaration), *span) is None,
        decreases tokens@.len() - i,
    {
        let token: &Token = &tokens[i];
        let ghost names = import_names(shown.take(i as int), *declaration);
        proof {
            assert(shown.take(i + 1).drop_last() == shown.take(i as int));
            assert(shown.take(i + 1).last() == token@);
        }
        if token.start >= declaration.start && token.end <= declaration.end {
            if used && (token.kind == TokenKind::Crate || token.kind == TokenKind::Ident) {
                proof {
                    lemma_name_around_push(names, token@, *span);
                }
                if span.file_id == 0 && token.start <= span.start && span.end <= token.end {
                    proof {
                        lemma_import_names_prefix(shown, *declaration, *span, i + 1);
                        assert(shown.take(shown.len() as int) == shown);
                    }
                    return Some(count);
                }
                count = count + 1;
            }
            if token.kind == TokenKind::Use {
                used = true;
            }
        }
        i = i + 1;
    }
    assert(shown.take(i as int) == shown);
    None
}

/// One more name is found only where no earlier one is.
proof fn lemma_name_around_push(names: Seq<TokenView>, token: TokenView, span: Span)
    ensures
        name_around(names.push(token), span) == (match name_around(names, span) {
            Some(index) => Some(index),
            None => if span.file_id == 0 && token.start <= span.start && span.end <= token.end {
                Some(names.len())
            } else {
                None
            },
        }),
    decreases names.len(),
{
    if names.len() > 0 {
        assert(names.push(token).drop_first() == names.drop_first().push(token));
        lemma_name_around_push(names.drop_first(), token, span);
    } else {
        assert(names.push(token).drop_first() == Seq::<TokenView>::empty());
        reveal_with_fuel(name_around, 2);
    }
}

/// A name that is found among the first tokens is found among all of them.
proof fn lemma_import_names_prefix(tokens: Seq<TokenView>, declaration: Span, span: Span, n: int)
    requires
        0 <= n <= tokens.len(),
        name_around(import_names(tokens.take(n), declaration), span) is Some,
    ensures
        name_around(import_names(tokens, declaration), span) == name_around(
            import_names(tokens.take(n), declaration),
            span,
        ),
    decreases tokens.len() - n,
{
    if n == tokens.len() {
        assert(tokens.take(n) == tokens);
    } else {
        let next = tokens.take(n + 1);
        assert(next.drop_last() == tokens.take(n));
        lemma_name_around_push(import_names(tokens.take(n), declaration), next.last(), span);
        lemma_import_names_prefix(tokens, declaration, span, n + 1);
    }
}

/// Finds the imported item that the name at an index belongs to.
fn find_item<'a>(items: &'a Vec<UseItem>, index: usize) -> (r: Option<&'a UseItem>)
    ensures
        match r {
            Some(item) => item_named(use_item_views(items@), index as int) == Some(item@),
            None => item_named(use_item_views(items@), index as int) is None,
        },
{
    let ghost shown = use_item_views(items@);
    let mut rest: usize = index;
    let mut i: usize = 0;
    assert(shown.skip(0) == shown);
    while i < items.len()
        invariant
            i <= items@.len(),
            shown == use_item_views(items@),
            item_named(shown, index as int) == item_named(shown.skip(i as int), rest as int),
        decreases items@.len() - i,
    {
        assert(shown.skip(i as int)[0] == items@[i as int]@);
        assert(shown.skip(i as int).drop_first() == shown.skip(i + 1));
        let has_alias: bool = items[i].alias.is_some();
        if rest == 0 || (rest == 1 && has_alias) {
            return Some(&items[i]);
        }
        rest = if has_alias {
            rest - 2
        } else {
            rest - 1
        };
        i = i + 1;
    }
    None
}

impl AnalysisSnapshot {
    /// The import around a span.
    fn find_import(&self, span: &Span) -> (r: Option<&UseDecl>)
        ensures
            match r {
                Some(declaration) => import_around(self@.use_declarations, *span) == Some(
                    declaration@,
                ),
                None => import_around(self@.use_declarations, *span) is None,
            },
    {
        let ghost shown = self@.use_declarations;
        let mut best: Option<usize> = None;
        let mut i: usize = 0;
        while i < self.use_declarations.len()
            invariant
                i <= self.use_declarations@.len(),
                shown == self@.use_declarations,
                shown.len() == self.use_declarations@.len(),
                match best {
                    Some(k) => k < self.use_declarations@.len() && import_around(
                        shown.take(i as int),
                        *span,
                    ) == Some(self.use_declarations@[k as int]@),
                    None => import_around(shown.take(i as int), *span) is None,
                },
            decreases self.use_declarations@.len() - i,
        {
            let declaration: &UseDecl = &self.use_declarations[i];
            assert(shown.take(i + 1).drop_last() == shown.take(i as int));
            assert(shown.take(i + 1).last() == declaration@);
            if span_contains(&declaration.span, span) {
                let shorter: bool = match best {
                    Some(k) => {
                        let other: Span = self.use_declarations[k].span;
                        declaration.span.end.saturating_sub(declaration.span.start)
                            < other.end.saturating_sub(other.start)
                    },
                    None => true,
                };
                if shorter {
                    best = Some(i);
                }
            }
            i = i + 1;
        }
        assert(shown.take(i as int) == shown);
        match best {
            Some(k) => Some(&self.use_declarations[k]),
            None => None,
        }
    }

    /// The function that the import under a span of the root brings in.
    pub fn find_imported_function(&self, span: Span) -> (r: Option<&Function>)
        ensures
            match r {
                Some(function) => imported_function(self@, span) == Some(function@),
                None => imported_function(self@, span) is None,
            },
    {
        let source: String = rope_text(&self.text);
        match lex(source.as_str()) {
            Some(tokens) => self.find_imported_among(span, &tokens),
            None => None,
        }
    }

    /// The function that the import under a span of the root brings in, where the root has some
    /// tokens.
    pub fn find_imported_among(&self, span: Span, tokens: &Vec<Token>) -> (r: Option<&Function>)
        ensures
            match r {
                Some(function) => imported_among(self@, span, token_views(tokens@)) == Some(
                    function@,
                ),
                None => imported_among(self@, span, token_views(tokens@)) is None,
            },
    {
        let declaration: &UseDecl = match self.find_import(&span) {
            Some(declaration) => declaration,
            None => return None,
        };
        match find_name_around(tokens, &declaration.span, &span) {
            None => None,
            Some(index) => {
                if index < declaration.path.len() {
                    return None;
                }
                match find_item(&declaration.items, index - declaration.path.len()) {
                    Some(item) => self.functions.get_func(item.local().as_str()),
                    None => None,
                }
            },
        }
    }
}

} // verus!
