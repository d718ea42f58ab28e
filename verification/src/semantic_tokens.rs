//! Semantic highlighting: which names of a document are functions and namespaces.

use vstd::prelude::*;

use ropey::Rope;

use crate::analysis::sources::NamedView;
use crate::analysis::{AnalysisSnapshot, SnapshotView};
use crate::lexer::{lex, lexed, token_views, tokens_well_formed, Token, TokenKind, TokenView};
use crate::navigation::name_range_of;
use crate::order::texts;
use crate::protocol::Range;
use crate::rope::{rope_chars, rope_text};
use crate::syntax::{call_views, Call, CallKind, CallView, Function, FunctionView};
use crate::text::{position_of_offset, span_to_positions, Span};

verus! {

/// The index of functions in the legend.
pub const FUNCTION: u32 = 0;

/// The index of namespaces in the legend.
pub const NAMESPACE: u32 = 5;

/// The modifiers of the name in a function's definition: declaration and definition.
pub const DEFINITION: u32 = 3;

/// A highlighted name on one line.
#[derive(Clone, Copy, Debug, PartialEq, Eq, Structural)]
pub struct RawToken {
    pub line: u32,
    pub character: u32,
    pub length: u32,
    pub token_type: u32,
    pub modifiers: u32,
}

/// A highlighted name by its distance from the one before it.
#[derive(Clone, Copy, Debug, PartialEq, Eq, Structural)]
pub struct SemanticToken {
    pub delta_line: u32,
    pub delta_start: u32,
    pub length: u32,
    pub token_type: u32,
    pub token_modifiers_bitset: u32,
}

/// Whether `a` comes before `b`: by line, column, length, type and modifiers, in this order.
pub open spec fn token_before(a: RawToken, b: RawToken) -> bool {
    if a.line != b.line {
        a.line < b.line
    } else if a.character != b.character {
        a.character < b.character
    } else if a.length != b.length {
        a.length < b.length
    } else if a.token_type != b.token_type {
        a.token_type < b.token_type
    } else {
        a.modifiers < b.modifiers
    }
}

fn is_before(a: &RawToken, b: &RawToken) -> (r: bool)
    ensures
        r == token_before(*a, *b),
{
    if a.line != b.line {
        a.line < b.line
    } else if a.character != b.character {
        a.character < b.character
    } else if a.length != b.length {
        a.length < b.length
    } else if a.token_type != b.token_type {
        a.token_type < b.token_type
    } else {
        a.modifiers < b.modifiers
    }
}

/// Whether every token comes before the later ones, so that none occurs twice.
pub open spec fn tokens_ascend(tokens: Seq<RawToken>) -> bool {
    forall|i: int, j: int|
        0 <= i < j < tokens.len() ==> token_before(#[trigger] tokens[i], #[trigger] tokens[j])
}

/// Whether `sorted` holds the same tokens as `tokens`, in order and once each.
pub open spec fn sorts(sorted: Seq<RawToken>, tokens: Seq<RawToken>) -> bool {
    tokens_ascend(sorted) && sorted.to_set() == tokens.to_set()
}

/// Tokens sort to one list only.
pub proof fn lemma_sorted_unique(a: Seq<RawToken>, b: Seq<RawToken>)
    requires
        tokens_ascend(a),
        tokens_ascend(b),
        a.to_set() == b.to_set(),
    ensures
        a == b,
{
    assert forall|t: RawToken| #[trigger] a.contains(t) <==> b.contains(t) by {
        if a.contains(t) {
            assert(a.to_set().contains(t));
            assert(b.to_set().contains(t));
        }
        if b.contains(t) {
            assert(b.to_set().contains(t));
            assert(a.to_set().contains(t));
        }
    }
    crate::order::lemma_ascending_unique(a, b, |x: RawToken, y: RawToken| token_before(x, y));
}

/// Puts a token into its place in an ascending list, unless it is there.
fn insert_token(list: &mut Vec<RawToken>, token: RawToken)
    requires
        tokens_ascend(old(list)@),
    ensures
        tokens_ascend(final(list)@),
        final(list)@.to_set() == old(list)@.to_set().insert(token),
{
    let ghost before = list@;
    let mut i: usize = 0;
    while i < list.len() && is_before(&list[i], &token)
        invariant
            i <= list@.len(),
            list@ == before,
            forall|k: int| 0 <= k < i ==> token_before(#[trigger] before[k], token),
        decreases list@.len() - i,
    {
        i = i + 1;
    }
    if i < list.len() && list[i] == token {
        assert(before.to_set().contains(token));
        assert(before.to_set().insert(token) =~= before.to_set());
        return ;
    }
    list.insert(i, token);
    proof {
        let after = list@;
        assert forall|x: int, y: int| 0 <= x < y < after.len() implies token_before(
            #[trigger] after[x],
            #[trigger] after[y],
        ) by {
            if x < i {
                if y > i {
                    assert(token_before(before[x], before[y - 1]));
                } else if y < i {
                    assert(token_before(before[x], before[y]));
                }
            } else if x > i {
                assert(token_before(before[x - 1], before[y - 1]));
            } else if y - 1 > i {
                assert(token_before(before[i as int], before[y - 1]));
            }
        }
        assert forall|t: RawToken| after.to_set().contains(t) == before.to_set().insert(token).contains(t) by {
            if after.contains(t) {
                let k = choose|k: int| 0 <= k < after.len() && after[k] == t;
                if k < i {
                    assert(before[k] == t);
                } else if k > i {
                    assert(before[k - 1] == t);
                }
            }
            if t == token {
                assert(after[i as int] == t);
            } else if before.contains(t) {
                let k = choose|k: int| 0 <= k < before.len() && before[k] == t;
                if k < i {
                    assert(after[k] == t);
                } else {
                    assert(after[k + 1] == t);
                }
            }
        }
        assert(after.to_set() =~= before.to_set().insert(token));
    }
}

/// A token by its distance from `previous`: in lines, and in columns from the token before it on
/// the same line or from the beginning of the line.
pub open spec fn delta(previous: RawToken, token: RawToken) -> SemanticToken {
    SemanticToken {
        delta_line: (token.line - previous.line) as u32,
        delta_start: if token.line == previous.line {
            (token.character - previous.character) as u32
        } else {
            token.character
        },
        length: token.length,
        token_type: token.token_type,
        token_modifiers_bitset: token.modifiers,
    }
}

/// What stands before the first token: the beginning of the document.
pub open spec fn no_token() -> RawToken {
    RawToken { line: 0, character: 0, length: 0, token_type: 0, modifiers: 0 }
}

/// Tokens by their distances.
pub open spec fn deltas(tokens: Seq<RawToken>) -> Seq<SemanticToken> {
    Seq::new(
        tokens.len(),
        |i: int|
            delta(
                if i == 0 {
                    no_token()
                } else {
                    tokens[i - 1]
                },
                tokens[i],
            ),
    )
}

/// The token that a client finds at index `i` when it adds the distances up.
pub open spec fn decoded(tokens: Seq<SemanticToken>, i: int) -> (nat, nat)
    decreases i + 1,
{
    if i < 0 || i >= tokens.len() {
        (0, 0)
    } else {
        let (line, character) = decoded(tokens, i - 1);
        (
            line + tokens[i].delta_line as nat,
            if tokens[i].delta_line == 0 {
                character + tokens[i].delta_start as nat
            } else {
                tokens[i].delta_start as nat
            },
        )
    }
}

/// A client that adds the distances up finds every token where it was, in the order of the
/// document.
pub proof fn law_decoding_undoes_encoding(tokens: Seq<RawToken>, i: int)
    requires
        tokens_ascend(tokens),
        0 <= i < tokens.len(),
    ensures
        decoded(deltas(tokens), i) == (tokens[i].line as nat, tokens[i].character as nat),
        deltas(tokens)[i].length == tokens[i].length,
        deltas(tokens)[i].token_type == tokens[i].token_type,
        deltas(tokens)[i].token_modifiers_bitset == tokens[i].modifiers,
    decreases i,
{
    if i > 0 {
        law_decoding_undoes_encoding(tokens, i - 1);
        assert(token_before(tokens[i - 1], tokens[i]));
    } else {
        assert(decoded(deltas(tokens), -1) == (0nat, 0nat));
    }
}

/// Tokens as a client wants them: sorted, once each, and by their distances.
pub open spec fn encoded(tokens: Seq<RawToken>) -> Seq<SemanticToken> {
    deltas(choose|sorted: Seq<RawToken>| #[trigger] sorts(sorted, tokens))
}

pub fn encode(tokens: &Vec<RawToken>) -> (r: Vec<SemanticToken>)
    ensures
        r@ == encoded(tokens@),
        exists|sorted: Seq<RawToken>| #[trigger] sorts(sorted, tokens@),
{
    let mut sorted: Vec<RawToken> = Vec::new();
    let mut i: usize = 0;
    assert(sorted@.to_set() =~= tokens@.take(0).to_set());
    while i < tokens.len()
        invariant
            i <= tokens@.len(),
            tokens_ascend(sorted@),
            sorted@.to_set() == tokens@.take(i as int).to_set(),
        decreases tokens@.len() - i,
    {
        insert_token(&mut sorted, tokens[i]);
        proof {
            assert(tokens@.take(i + 1) == tokens@.take(i as int).push(tokens@[i as int]));
            broadcast use vstd::seq_lib::group_seq_properties;

            assert(tokens@.take(i + 1).to_set() =~= tokens@.take(i as int).to_set().insert(
                tokens@[i as int],
            ));
        }
        i = i + 1;
    }
    assert(tokens@.take(i as int) == tokens@);
    assert(sorts(sorted@, tokens@));
    proof {
        let other = choose|other: Seq<RawToken>| #[trigger] sorts(other, tokens@);
        lemma_sorted_unique(sorted@, other);
    }
    let mut r: Vec<SemanticToken> = Vec::new();
    let mut previous: RawToken = RawToken {
        line: 0,
        character: 0,
        length: 0,
        token_type: 0,
        modifiers: 0,
    };
    let mut k: usize = 0;
    while k < sorted.len()
        invariant
            k <= sorted@.len(),
            tokens_ascend(sorted@),
            previous == (if k == 0 {
                no_token()
            } else {
                sorted@[k - 1]
            }),
            r@ == deltas(sorted@).take(k as int),
        decreases sorted@.len() - k,
    {
        let token: RawToken = sorted[k];
        proof {
            if k > 0 {
                assert(token_before(sorted@[k - 1], sorted@[k as int]));
            }
            assert(deltas(sorted@).take(k + 1) == deltas(sorted@).take(k as int).push(
                deltas(sorted@)[k as int],
            ));
        }
        let delta_line: u32 = token.line - previous.line;
        let delta_start: u32 = if delta_line == 0 {
            token.character - previous.character
        } else {
            token.character
        };
        r.push(
            SemanticToken {
                delta_line,
                delta_start,
                length: token.length,
                token_type: token.token_type,
                token_modifiers_bitset: token.modifiers,
            },
        );
        previous = token;
        k = k + 1;
    }
    assert(deltas(sorted@).take(k as int) == deltas(sorted@));
    r
}

/// The first token that has a property.
pub open spec fn first_token(tokens: Seq<TokenView>, property: spec_fn(TokenView) -> bool) -> Option<
    TokenView,
>
    decreases tokens.len(),
{
    if tokens.len() == 0 {
        None
    } else if property(tokens[0]) {
        Some(tokens[0])
    } else {
        first_token(tokens.drop_first(), property)
    }
}

/// The first token that starts where a call starts.
pub open spec fn token_at(tokens: Seq<TokenView>, start: nat) -> Option<TokenView> {
    first_token(tokens, |token: TokenView| token.start == start)
}

/// The first identifier `name` inside of a call; where `starts` is set, only one that the call
/// starts with.
pub open spec fn ident_in(
    tokens: Seq<TokenView>,
    call: Span,
    name: Seq<char>,
    starts: bool,
) -> Option<TokenView> {
    first_token(
        tokens,
        |token: TokenView|
            (starts ==> token.start == call.start) && token.start >= call.start && token.end
                <= call.end && token.kind == TokenKind::Ident && token.text == name,
    )
}

/// The identifier that names the function of a call, by the kind of the call, and whether the call
/// starts with it.
pub open spec fn callable_of(kind: CallKind, function: Seq<char>) -> (Seq<char>, bool) {
    match kind {
        CallKind::Custom => (function, true),
        CallKind::Fold => ("fold"@, true),
        CallKind::ArrayFold => ("array_fold"@, true),
        CallKind::ForWhile => ("for_while"@, true),
        CallKind::UnwrapLeft => ("unwrap_left"@, true),
        CallKind::UnwrapRight => ("unwrap_right"@, true),
        CallKind::Unwrap => ("unwrap"@, true),
        CallKind::IsNone => ("is_none"@, true),
        CallKind::TypeCast => ("into"@, false),
        CallKind::Jet => (Seq::empty(), false),
        CallKind::Assert => (Seq::empty(), false),
        CallKind::Panic => (Seq::empty(), false),
        CallKind::Debug => (Seq::empty(), false),
    }
}

/// Whether a call hands its arguments to another function that it names.
pub open spec fn has_callback(kind: CallKind) -> bool {
    kind == CallKind::Fold || kind == CallKind::ArrayFold || kind == CallKind::ForWhile
}

/// The span of a token of the root source.
pub open spec fn token_span(start: nat, end: nat) -> Span {
    Span { file_id: 0, start: start as usize, end: end as usize }
}

/// One function name, where it was found.
pub open spec fn function_name_span(token: Option<TokenView>) -> Seq<(Span, u32)> {
    match token {
        Some(token) => seq![(token_span(token.start, token.end), FUNCTION)],
        None => Seq::empty(),
    }
}

/// The names that a call highlights: a jet by its namespace and its name, a macro as a whole, and
/// the other calls by the identifiers of the function and of the callback.
pub open spec fn highlights(call: CallView, tokens: Seq<TokenView>) -> Seq<(Span, u32)> {
    let first = token_at(tokens, call.span.start as nat);
    match call.name.kind {
        CallKind::Jet => match first {
            Some(token) => if token.kind == TokenKind::Jet {
                seq![
                    (token_span(token.start, token.start + 3), NAMESPACE),
                    (token_span(token.start + 5, token.end), FUNCTION),
                ]
            } else {
                Seq::empty()
            },
            None => Seq::empty(),
        },
        CallKind::Assert | CallKind::Panic | CallKind::Debug => match first {
            Some(token) => if token.kind == TokenKind::Macro {
                seq![(token_span(token.start, token.end), FUNCTION)]
            } else {
                Seq::empty()
            },
            None => Seq::empty(),
        },
        kind => {
            let (name, starts) = callable_of(kind, call.name.function);
            function_name_span(ident_in(tokens, call.span, name, starts)) + (if has_callback(kind) {
                function_name_span(ident_in(tokens, call.span, call.name.function, false))
            } else {
                Seq::empty()
            })
        },
    }
}

/// The first of some tokens at or behind index `from` that starts at `start`.
fn find_token_at(tokens: &Vec<Token>, start: usize) -> (r: Option<usize>)
    ensures
        match r {
            Some(i) => i < tokens@.len() && token_at(token_views(tokens@), start as nat) == Some(
                tokens@[i as int]@,
            ),
            None => token_at(token_views(tokens@), start as nat) is None,
        },
{
    let ghost shown = token_views(tokens@);
    let ghost property = |token: TokenView| token.start == start as nat;
    let mut i: usize = 0;
    assert(shown.skip(0) == shown);
    while i < tokens.len()
        invariant
            i <= tokens@.len(),
            shown == token_views(tokens@),
            property == (|token: TokenView| token.start == start as nat),
            token_at(shown, start as nat) == first_token(shown.skip(i as int), property),
        decreases tokens@.len() - i,
    {
        assert(shown.skip(i as int)[0] == tokens@[i as int]@);
        if tokens[i].start == start {
            return Some(i);
        }
        assert(shown.skip(i as int).drop_first() == shown.skip(i + 1));
        i = i + 1;
    }
    None
}

/// The first identifier `name` inside of a call.
fn find_ident(tokens: &Vec<Token>, call: &Span, name: &str, starts: bool) -> (r: Option<Span>)
    ensures
        match r {
            Some(span) => match ident_in(token_views(tokens@), *call, name@, starts) {
                Some(token) => span == token_span(token.start, token.end),
                None => false,
            },
            None => ident_in(token_views(tokens@), *call, name@, starts) is None,
        },
{
    let ghost shown = token_views(tokens@);
    let ghost property = |token: TokenView|
        (starts ==> token.start == call.start) && token.start >= call.start && token.end <= call.end
            && token.kind == TokenKind::Ident && token.text == name@;
    let mut i: usize = 0;
    assert(shown.skip(0) == shown);
    while i < tokens.len()
        invariant
            i <= tokens@.len(),
            shown == token_views(tokens@),
            property == (|token: TokenView|
                (starts ==> token.start == call.start) && token.start >= call.start && token.end
                    <= call.end && token.kind == TokenKind::Ident && token.text == name@),
            ident_in(shown, *call, name@, starts) == first_token(shown.skip(i as int), property),
        decreases tokens@.len() - i,
    {
        let token: &Token = &tokens[i];
        assert(shown.skip(i as int)[0] == token@);
        if (!starts || token.start == call.start) && token.start >= call.start && token.end
            <= call.end && token.kind == TokenKind::Ident && crate::chars::same(
            token.text.as_str(),
            name,
        ) {
            return Some(Span { file_id: 0, start: token.start, end: token.end });
        }
        assert(shown.skip(i as int).drop_first() == shown.skip(i + 1));
        i = i + 1;
    }
    None
}

/// The names that a call highlights, among the tokens of its source.
pub fn call_spans(call: &Call, tokens: &Vec<Token>) -> (r: Vec<(Span, u32)>)
    requires
        tokens_well_formed(tokens@),
    ensures
        r@ == highlights(call@, token_views(tokens@)),
{
    let mut spans: Vec<(Span, u32)> = Vec::new();
    let kind: CallKind = call.name.kind;
    let function: &str = call.name.function.as_str();
    match kind {
        CallKind::Jet => {
            if let Some(i) = find_token_at(tokens, call.span.start) {
                let token: &Token = &tokens[i];
                if token.kind == TokenKind::Jet {
                    spans.push(
                        (
                            Span { file_id: 0, start: token.start, end: token.start + 3 },
                            NAMESPACE,
                        ),
                    );
                    spans.push(
                        (Span { file_id: 0, start: token.start + 5, end: token.end }, FUNCTION),
                    );
                }
            }
        },
        CallKind::Assert | CallKind::Panic | CallKind::Debug => {
            if let Some(i) = find_token_at(tokens, call.span.start) {
                let token: &Token = &tokens[i];
                if token.kind == TokenKind::Macro {
                    spans.push((Span { file_id: 0, start: token.start, end: token.end }, FUNCTION));
                }
            }
        },
        _ => {
            let (name, starts) = match kind {
                CallKind::Custom => (function, true),
                CallKind::Fold => ("fold", true),
                CallKind::ArrayFold => ("array_fold", true),
                CallKind::ForWhile => ("for_while", true),
                CallKind::UnwrapLeft => ("unwrap_left", true),
                CallKind::UnwrapRight => ("unwrap_right", true),
                CallKind::Unwrap => ("unwrap", true),
                CallKind::IsNone => ("is_none", true),
                _ => ("into", false),
            };
            if let Some(span) = find_ident(tokens, &call.span, name, starts) {
                spans.push((span, FUNCTION));
            }
            let callback: bool = match kind {
                CallKind::Fold | CallKind::ArrayFold | CallKind::ForWhile => true,
                _ => false,
            };
            if callback {
                if let Some(span) = find_ident(tokens, &call.span, function, false) {
                    spans.push((span, FUNCTION));
                }
            }
        },
    }
    assert(spans@ =~= highlights(call@, token_views(tokens@)));
    spans
}

/// The token for a span that lies on one line and is not empty.
pub open spec fn raw_token_of(
    span: Span,
    text: Seq<char>,
    token_type: u32,
    modifiers: u32,
) -> Option<RawToken> {
    match (position_of_offset(text, span.start as nat), position_of_offset(text, span.end as nat)) {
        (Some(start), Some(end)) => if start.line == end.line && start.character < end.character {
            Some(
                RawToken {
                    line: start.line,
                    character: start.character,
                    length: (end.character - start.character) as u32,
                    token_type,
                    modifiers,
                },
            )
        } else {
            None
        },
        _ => None,
    }
}

pub fn raw_token(span: &Span, text: &Rope, token_type: u32, modifiers: u32) -> (r: Option<RawToken>)
    ensures
        r == raw_token_of(*span, rope_chars(*text), token_type, modifiers),
{
    match span_to_positions(span, text) {
        Ok((start, end)) => {
            if start.line != end.line || start.character >= end.character {
                return None;
            }
            Some(
                RawToken {
                    line: start.line,
                    character: start.character,
                    length: end.character - start.character,
                    token_type,
                    modifiers,
                },
            )
        },
        Err(_) => None,
    }
}

/// The names of what is highlighted, by the numbers that stand for them.
#[derive(Debug)]
pub struct SemanticTokensLegend {
    pub token_types: Vec<String>,
    pub token_modifiers: Vec<String>,
}

/// The names of the token types.
pub open spec fn type_names() -> Seq<Seq<char>> {
    seq![
        "function"@,
        "parameter"@,
        "variable"@,
        "type"@,
        "keyword"@,
        "namespace"@,
    ]
}

/// The names of the modifiers, each of them a bit.
pub open spec fn modifier_names() -> Seq<Seq<char>> {
    seq!["declaration"@, "definition"@]
}

pub fn legend() -> (r: SemanticTokensLegend)
    ensures
        texts(r.token_types@) == type_names(),
        texts(r.token_modifiers@) == modifier_names(),
{
    let r = SemanticTokensLegend {
        token_types: vec![
            "function".to_owned(),
            "parameter".to_owned(),
            "variable".to_owned(),
            "type".to_owned(),
            "keyword".to_owned(),
            "namespace".to_owned(),
        ],
        token_modifiers: vec!["declaration".to_owned(), "definition".to_owned()],
    };
    assert(texts(r.token_types@) =~= type_names());
    assert(texts(r.token_modifiers@) =~= modifier_names());
    r
}

/// The highlighted names at some spans.
pub open spec fn span_tokens(spans: Seq<(Span, u32)>, text: Seq<char>) -> Seq<RawToken>
    decreases spans.len(),
{
    if spans.len() == 0 {
        Seq::empty()
    } else {
        let before = span_tokens(spans.drop_last(), text);
        let (span, token_type) = spans.last();
        match raw_token_of(span, text, token_type, 0) {
            Some(token) => before.push(token),
            None => before,
        }
    }
}

/// The highlighted names of some calls.
pub open spec fn call_tokens(
    calls: Seq<CallView>,
    tokens: Seq<TokenView>,
    text: Seq<char>,
) -> Seq<RawToken>
    decreases calls.len(),
{
    if calls.len() == 0 {
        Seq::empty()
    } else {
        call_tokens(calls.drop_last(), tokens, text) + span_tokens(
            highlights(calls.last(), tokens),
            text,
        )
    }
}

/// The highlighted name of a function's definition, where it is found on one line.
pub open spec fn name_highlight(name: Option<Range>) -> Seq<RawToken> {
    match name {
        Some(range) => if range.start.line == range.end.line && range.start.character
            < range.end.character {
            seq![
                RawToken {
                    line: range.start.line,
                    character: range.start.character,
                    length: (range.end.character - range.start.character) as u32,
                    token_type: FUNCTION,
                    modifiers: DEFINITION,
                },
            ]
        } else {
            Seq::empty()
        },
        None => Seq::empty(),
    }
}

/// The highlighted names of the functions that stand in the root, where their own names are found
/// at some ranges.
pub open spec fn function_tokens(
    entries: Seq<NamedView>,
    names: Seq<Option<Range>>,
    tokens: Seq<TokenView>,
    text: Seq<char>,
) -> Seq<RawToken>
    decreases entries.len(),
{
    if entries.len() == 0 {
        Seq::empty()
    } else {
        let before = function_tokens(entries.drop_last(), names, tokens, text);
        let function = entries.last().function;
        if function.span.file_id == 0 {
            before + name_highlight(names[entries.len() - 1]) + call_tokens(
                function.calls,
                tokens,
                text,
            )
        } else {
            before
        }
    }
}

/// Where the name of a function is found in its definition.
pub open spec fn name_found(snapshot: SnapshotView, function: FunctionView) -> Option<Range> {
    match name_range_of(snapshot, function) {
        Ok(range) => Some(range),
        Err(_) => None,
    }
}

/// Where the names of some functions are found in their definitions.
pub open spec fn names_found(snapshot: SnapshotView, entries: Seq<NamedView>) -> Seq<
    Option<Range>,
> {
    Seq::new(entries.len(), |i: int| name_found(snapshot, entries[i].function))
}

/// The tokens of a document, or none where it has no tokens.
pub open spec fn root_tokens(text: Seq<char>) -> Seq<TokenView> {
    match lexed(text) {
        Some(tokens) => tokens,
        None => Seq::empty(),
    }
}

/// The highlighted names of a document.
pub open spec fn snapshot_tokens(snapshot: SnapshotView) -> Seq<RawToken> {
    function_tokens(
        snapshot.functions,
        names_found(snapshot, snapshot.functions),
        root_tokens(snapshot.text),
        snapshot.text,
    )
}

/// Adds the highlighted names of a call.
fn push_call_tokens(raw: &mut Vec<RawToken>, call: &Call, tokens: &Vec<Token>, text: &Rope)
    requires
        tokens_well_formed(tokens@),
    ensures
        final(raw)@ == old(raw)@ + span_tokens(
            highlights(call@, token_views(tokens@)),
            rope_chars(*text),
        ),
{
    let ghost before = raw@;
    let spans: Vec<(Span, u32)> = call_spans(call, tokens);
    let mut i: usize = 0;
    assert(before + Seq::<RawToken>::empty() =~= before);
    while i < spans.len()
        invariant
            i <= spans@.len(),
            raw@ == before + span_tokens(spans@.take(i as int), rope_chars(*text)),
        decreases spans@.len() - i,
    {
        assert(spans@.take(i + 1).drop_last() == spans@.take(i as int));
        let (span, token_type): (Span, u32) = spans[i];
        if let Some(token) = raw_token(&span, text, token_type, 0) {
            raw.push(token);
        }
        assert(raw@ =~= before + span_tokens(spans@.take(i + 1), rope_chars(*text)));
        i = i + 1;
    }
    assert(spans@.take(i as int) == spans@);
}

/// Adds the highlighted names of a function that stands in the root.
fn push_function_tokens(
    raw: &mut Vec<RawToken>,
    function: &Function,
    name: Option<Range>,
    tokens: &Vec<Token>,
    text: &Rope,
)
    requires
        tokens_well_formed(tokens@),
    ensures
        final(raw)@ == old(raw)@ + name_highlight(name) + call_tokens(
            function@.calls,
            token_views(tokens@),
            rope_chars(*text),
        ),
{
    let ghost before = raw@;
    if let Some(range) = name {
        if range.start.line == range.end.line && range.start.character < range.end.character {
            raw.push(
                RawToken {
                    line: range.start.line,
                    character: range.start.character,
                    length: range.end.character - range.start.character,
                    token_type: FUNCTION,
                    modifiers: DEFINITION,
                },
            );
        }
    }
    let ghost named = before + name_highlight(name);
    assert(raw@ =~= named);
    let ghost calls = function@.calls;
    let mut i: usize = 0;
    assert(named + Seq::<RawToken>::empty() =~= named);
    while i < function.calls.len()
        invariant
            i <= function.calls@.len(),
            tokens_well_formed(tokens@),
            calls == call_views(function.calls@),
            raw@ == named + call_tokens(
                calls.take(i as int),
                token_views(tokens@),
                rope_chars(*text),
            ),
        decreases function.calls@.len() - i,
    {
        assert(calls.take(i + 1).drop_last() == calls.take(i as int));
        assert(calls.take(i + 1).last() == function.calls@[i as int]@);
        push_call_tokens(raw, &function.calls[i], tokens, text);
        assert(raw@ =~= named + call_tokens(
            calls.take(i + 1),
            token_views(tokens@),
            rope_chars(*text),
        ));
        i = i + 1;
    }
    assert(calls.take(i as int) == calls);
}

/// The highlighted names of a document with some tokens, where the names of its functions are found
/// at some ranges.
pub fn highlight(
    snapshot: &AnalysisSnapshot,
    names: &Vec<Option<Range>>,
    tokens: &Vec<Token>,
) -> (r: Vec<RawToken>)
    requires
        names@.len() == snapshot@.functions.len(),
        tokens_well_formed(tokens@),
    ensures
        r@ == function_tokens(
            snapshot@.functions,
            names@,
            token_views(tokens@),
            snapshot@.text,
        ),
{
    let mut raw: Vec<RawToken> = Vec::new();
    let ghost entries = snapshot@.functions;
    let mut i: usize = 0;
    while i < snapshot.functions.len()
        invariant
            i <= entries.len(),
            entries == snapshot@.functions,
            names@.len() == entries.len(),
            tokens_well_formed(tokens@),
            raw@ == function_tokens(
                entries.take(i as int),
                names@,
                token_views(tokens@),
                snapshot@.text,
            ),
        decreases entries.len() - i,
    {
        assert(entries.take(i + 1).drop_last() == entries.take(i as int));
        let function: &Function = snapshot.functions.function_at(i);
        if function.span.file_id == 0 {
            push_function_tokens(&mut raw, function, names[i], tokens, &snapshot.text);
        }
        i = i + 1;
    }
    assert(entries.take(i as int) == entries);
    raw
}

/// The highlighted names of a document, each by its distance from the one before it.
pub fn tokens(snapshot: &AnalysisSnapshot) -> (r: Vec<SemanticToken>)
    ensures
        r@ == encoded(snapshot_tokens(snapshot@)),
        exists|sorted: Seq<RawToken>| #[trigger] sorts(sorted, snapshot_tokens(snapshot@)),
{
    let source: String = rope_text(&snapshot.text);
    let tokens: Vec<Token> = match lex(source.as_str()) {
        Some(tokens) => tokens,
        None => Vec::new(),
    };
    assert(token_views(tokens@) =~= root_tokens(snapshot@.text));
    assert(tokens_well_formed(tokens@));
    let ghost entries = snapshot@.functions;
    let mut names: Vec<Option<Range>> = Vec::new();
    let mut i: usize = 0;
    while i < snapshot.functions.len()
        invariant
            i <= entries.len(),
            entries == snapshot@.functions,
            names@.len() == i,
            forall|k: int|
                0 <= k < i ==> #[trigger] names@[k] == name_found(snapshot@, entries[k].function),
        decreases entries.len() - i,
    {
        let function: &Function = snapshot.functions.function_at(i);
        let name: Option<Range> = match snapshot.find_function_name_range(function) {
            Ok(range) => Some(range),
            Err(_) => None,
        };
        names.push(name);
        i = i + 1;
    }
    assert(names@ =~= names_found(snapshot@, entries));
    let raw: Vec<RawToken> = highlight(snapshot, &names, &tokens);
    assert(raw@ == snapshot_tokens(snapshot@));
    encode(&raw)
}

} // verus!
