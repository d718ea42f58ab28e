//! What holds of every highlighted name.

use vstd::prelude::*;

use crate::analysis::sources::NamedView;
use crate::analysis::SnapshotView;
use crate::lexer::{lexed, TokenKind, TokenView};
use crate::navigation::name_range_of;
use crate::protocol::{Position, Range};
use crate::semantic_tokens::{
    call_tokens, decoded, deltas, encoded, first_token, function_tokens, highlights, ident_in,
    law_decoding_undoes_encoding, lemma_sorted_unique, modifier_names, name_highlight, names_found,
    root_tokens, snapshot_tokens, sorts, span_tokens, token_at, type_names, RawToken,
};
use crate::syntax::{CallKind, CallView};
use crate::text::{position_of_offset, Span};

verus! {

/// The identifier that a call of some kind starts with: the function that it calls, or the name of
/// what is built in.
pub open spec fn leading_name(call: CallView) -> Option<Seq<char>> {
    match call.name.kind {
        CallKind::Custom => Some(call.name.function),
        CallKind::Fold => Some("fold"@),
        CallKind::ArrayFold => Some("array_fold"@),
        CallKind::ForWhile => Some("for_while"@),
        CallKind::UnwrapLeft => Some("unwrap_left"@),
        CallKind::UnwrapRight => Some("unwrap_right"@),
        CallKind::Unwrap => Some("unwrap"@),
        CallKind::IsNone => Some("is_none"@),
        _ => None,
    }
}

/// Whether a token is an identifier inside of a span.
pub open spec fn is_ident_in(token: TokenView, span: Span, name: Seq<char>) -> bool {
    &&& token.kind == TokenKind::Ident
    &&& token.text == name
    &&& span.start <= token.start
    &&& token.end <= span.end
}

/// Whether the token at an index is the first identifier of a name inside of a span.
pub open spec fn is_first_ident(tokens: Seq<TokenView>, m: int, span: Span, name: Seq<char>) -> bool {
    &&& 0 <= m < tokens.len()
    &&& is_ident_in(tokens[m], span, name)
    &&& forall|k: int| 0 <= k < m ==> !is_ident_in(#[trigger] tokens[k], span, name)
}

/// Whether the token at an index is the first identifier of a name that a span starts with.
pub open spec fn is_leading_ident(
    tokens: Seq<TokenView>,
    m: int,
    span: Span,
    name: Seq<char>,
) -> bool {
    &&& 0 <= m < tokens.len()
    &&& is_ident_in(tokens[m], span, name)
    &&& tokens[m].start == span.start
    &&& forall|k: int|
        0 <= k < m ==> !(is_ident_in(#[trigger] tokens[k], span, name) && tokens[k].start
            == span.start)
}

/// Whether the token at an index is the first that starts at an offset.
pub open spec fn is_first_at(tokens: Seq<TokenView>, m: int, start: nat) -> bool {
    &&& 0 <= m < tokens.len()
    &&& tokens[m].start == start
    &&& forall|k: int| 0 <= k < m ==> (#[trigger] tokens[k]).start != start
}

/// The bytes of the root from one to another, with the index of a type in the legend.
pub open spec fn stretch(start: nat, end: nat, token_type: u32) -> (Span, u32) {
    (Span { file_id: 0, start: start as usize, end: end as usize }, token_type)
}

proof fn lemma_first_token(
    tokens: Seq<TokenView>,
    property: spec_fn(TokenView) -> bool,
    m: int,
)
    ensures
        0 <= m < tokens.len() && property(tokens[m]) && (forall|k: int|
            0 <= k < m ==> !property(#[trigger] tokens[k])) ==> first_token(tokens, property)
            == Some(tokens[m]),
        (forall|k: int| 0 <= k < tokens.len() ==> !property(#[trigger] tokens[k])) ==> first_token(
            tokens,
            property,
        ) is None,
    decreases tokens.len(),
{
    if tokens.len() > 0 {
        let rest = tokens.drop_first();
        lemma_first_token(rest, property, m - 1);
        if 0 < m < tokens.len() && property(tokens[m]) && (forall|k: int|
            0 <= k < m ==> !property(#[trigger] tokens[k])) {
            assert(!property(tokens[0]));
            assert(rest[m - 1] == tokens[m]);
            assert forall|k: int| 0 <= k < m - 1 implies !property(#[trigger] rest[k]) by {
                assert(rest[k] == tokens[k + 1]);
            }
        }
        if forall|k: int| 0 <= k < tokens.len() ==> !property(#[trigger] tokens[k]) {
            assert(!property(tokens[0]));
            assert forall|k: int| 0 <= k < rest.len() implies !property(#[trigger] rest[k]) by {
                assert(rest[k] == tokens[k + 1]);
            }
        }
    }
}

proof fn lemma_ident_in(tokens: Seq<TokenView>, m: int, span: Span, name: Seq<char>)
    ensures
        is_first_ident(tokens, m, span, name) ==> ident_in(tokens, span, name, false) == Some(
            tokens[m],
        ),
        is_leading_ident(tokens, m, span, name) ==> ident_in(tokens, span, name, true) == Some(
            tokens[m],
        ),
        (forall|k: int| 0 <= k < tokens.len() ==> !is_ident_in(#[trigger] tokens[k], span, name))
            ==> ident_in(tokens, span, name, false) is None,
        (forall|k: int|
            0 <= k < tokens.len() ==> !(is_ident_in(#[trigger] tokens[k], span, name)
                && tokens[k].start == span.start)) ==> ident_in(tokens, span, name, true) is None,
{
    lemma_ident_found(tokens, m, span, name, false);
    lemma_ident_found(tokens, m, span, name, true);
    if is_first_ident(tokens, m, span, name) {
        assert forall|k: int| 0 <= k < m implies !is_candidate(
            #[trigger] tokens[k],
            span,
            name,
            false,
        ) by {
            assert(!is_ident_in(tokens[k], span, name));
        }
    }
    if is_leading_ident(tokens, m, span, name) {
        assert forall|k: int| 0 <= k < m implies !is_candidate(
            #[trigger] tokens[k],
            span,
            name,
            true,
        ) by {
            assert(!(is_ident_in(tokens[k], span, name) && tokens[k].start == span.start));
        }
    }
    if forall|k: int| 0 <= k < tokens.len() ==> !is_ident_in(#[trigger] tokens[k], span, name) {
        assert forall|k: int| 0 <= k < tokens.len() implies !is_candidate(
            #[trigger] tokens[k],
            span,
            name,
            false,
        ) by {
            assert(!is_ident_in(tokens[k], span, name));
        }
    }
    if forall|k: int|
        0 <= k < tokens.len() ==> !(is_ident_in(#[trigger] tokens[k], span, name)
            && tokens[k].start == span.start) {
        assert forall|k: int| 0 <= k < tokens.len() implies !is_candidate(
            #[trigger] tokens[k],
            span,
            name,
            true,
        ) by {
            assert(!(is_ident_in(tokens[k], span, name) && tokens[k].start == span.start));
        }
    }
}

/// Whether a token is an identifier inside of a span, and starts it where `starts` is set.
spec fn is_candidate(token: TokenView, span: Span, name: Seq<char>, starts: bool) -> bool {
    is_ident_in(token, span, name) && (starts ==> token.start == span.start)
}

proof fn lemma_ident_found(
    tokens: Seq<TokenView>,
    m: int,
    call: Span,
    name: Seq<char>,
    starts: bool,
)
    ensures
        0 <= m < tokens.len() && is_candidate(tokens[m], call, name, starts) && (forall|k: int|
            0 <= k < m ==> !is_candidate(#[trigger] tokens[k], call, name, starts)) ==> ident_in(
            tokens,
            call,
            name,
            starts,
        ) == Some(tokens[m]),
        (forall|k: int|
            0 <= k < tokens.len() ==> !is_candidate(#[trigger] tokens[k], call, name, starts))
            ==> ident_in(tokens, call, name, starts) is None,
{
    let property = |token: TokenView|
        (starts ==> token.start == call.start) && token.start >= call.start && token.end <= call.end
            && token.kind == TokenKind::Ident && token.text == name;
    lemma_first_token(tokens, property, m);
    assert(ident_in(tokens, call, name, starts) == first_token(tokens, property));
    assert forall|k: int| 0 <= k < tokens.len() implies property(#[trigger] tokens[k])
        == is_candidate(tokens[k], call, name, starts) by {}
}

/// A call of a function, and one of what is built in without a callback, highlights exactly the
/// identifier that it starts with, as a function.
pub proof fn law_call_highlights_its_name(
    call: CallView,
    tokens: Seq<TokenView>,
    name: Seq<char>,
    m: int,
)
    requires
        leading_name(call) == Some(name),
        !(call.name.kind is Fold || call.name.kind is ArrayFold || call.name.kind is ForWhile),
    ensures
        is_leading_ident(tokens, m, call.span, name) ==> highlights(call, tokens) == seq![
            stretch(tokens[m].start, tokens[m].end, 0),
        ],
        (forall|k: int|
            0 <= k < tokens.len() ==> !(is_ident_in(#[trigger] tokens[k], call.span, name)
                && tokens[k].start == call.span.start)) ==> highlights(call, tokens).len() == 0,
{
    lemma_ident_in(tokens, m, call.span, name);
    let own = highlights(call, tokens);
    if is_leading_ident(tokens, m, call.span, name) {
        assert(own =~= seq![stretch(tokens[m].start, tokens[m].end, 0)]);
    }
}

/// A call that hands its arguments to a callback highlights the identifier that it starts with and
/// the first identifier of the callback, both as functions.
pub proof fn law_call_highlights_its_callback(
    call: CallView,
    tokens: Seq<TokenView>,
    name: Seq<char>,
    m: int,
    n: int,
)
    requires
        leading_name(call) == Some(name),
        call.name.kind is Fold || call.name.kind is ArrayFold || call.name.kind is ForWhile,
        is_leading_ident(tokens, m, call.span, name),
        is_first_ident(tokens, n, call.span, call.name.function),
    ensures
        highlights(call, tokens) == seq![
            stretch(tokens[m].start, tokens[m].end, 0),
            stretch(tokens[n].start, tokens[n].end, 0),
        ],
{
    lemma_ident_in(tokens, m, call.span, name);
    lemma_ident_in(tokens, n, call.span, call.name.function);
    assert(highlights(call, tokens) =~= seq![
        stretch(tokens[m].start, tokens[m].end, 0),
        stretch(tokens[n].start, tokens[n].end, 0),
    ]);
}

/// A cast highlights its first `into`, a jet its `jet` as a namespace and its name as a function,
/// and a macro the whole of it.
pub proof fn law_other_calls_are_highlighted(call: CallView, tokens: Seq<TokenView>, m: int)
    ensures
        call.name.kind is TypeCast && is_first_ident(tokens, m, call.span, "into"@) ==> highlights(
            call,
            tokens,
        ) == seq![stretch(tokens[m].start, tokens[m].end, 0)],
        call.name.kind is Jet && is_first_at(tokens, m, call.span.start as nat) && tokens[m].kind
            is Jet ==> highlights(call, tokens) == seq![
            stretch(tokens[m].start, tokens[m].start + 3, 5),
            stretch(tokens[m].start + 5, tokens[m].end, 0),
        ],
        (call.name.kind is Assert || call.name.kind is Panic || call.name.kind is Debug)
            && is_first_at(tokens, m, call.span.start as nat) && tokens[m].kind is Macro
            ==> highlights(call, tokens) == seq![stretch(tokens[m].start, tokens[m].end, 0)],
{
    let start = call.span.start as nat;
    let property = |token: TokenView| token.start == start;
    lemma_first_token(tokens, property, m);
    assert(token_at(tokens, start) == first_token(tokens, property));
    if is_first_at(tokens, m, start) {
        assert forall|k: int| 0 <= k < m implies !property(#[trigger] tokens[k]) by {
            assert(tokens[k].start != start);
        }
    }
    lemma_ident_in(tokens, m, call.span, "into"@);
    if call.name.kind is TypeCast && is_first_ident(tokens, m, call.span, "into"@) {
        assert(highlights(call, tokens) =~= seq![stretch(tokens[m].start, tokens[m].end, 0)]);
    }
}

/// The types and modifiers that are told by a number, by their names in the legend.
pub proof fn law_legend_names_the_types()
    ensures
        type_names()[0] == "function"@,
        type_names()[5] == "namespace"@,
        modifier_names() == seq!["declaration"@, "definition"@],
{
}

/// Whether a token is the name between two positions of one line.
pub open spec fn is_token_between(token: RawToken, start: Position, end: Position) -> bool {
    &&& start.line == end.line
    &&& start.character < end.character
    &&& token.line == start.line
    &&& token.character == start.character
    &&& token.character + token.length == end.character
}

/// Whether a token stands for a span of a text that a call highlights.
pub open spec fn stands_for(token: RawToken, span: (Span, u32), text: Seq<char>) -> bool {
    match (
        position_of_offset(text, span.0.start as nat),
        position_of_offset(text, span.0.end as nat),
    ) {
        (Some(start), Some(end)) => is_token_between(token, start, end) && token.token_type
            == span.1 && token.modifiers == 0,
        _ => false,
    }
}

/// Whether a token stands for one of the spans that a call at an index of the root's function at an
/// index highlights.
pub open spec fn is_called_at(
    snapshot: SnapshotView,
    tokens: Seq<TokenView>,
    i: int,
    j: int,
    token: RawToken,
) -> bool {
    let function = snapshot.functions[i].function;
    &&& 0 <= i < snapshot.functions.len()
    &&& function.span.file_id == 0
    &&& 0 <= j < function.calls.len()
    &&& exists|s: int|
        0 <= s < highlights(function.calls[j], tokens).len() && stands_for(
            token,
            #[trigger] highlights(function.calls[j], tokens)[s],
            snapshot.text,
        )
}

/// Whether a token stands for the name in the definition of the root's function at an index.
pub open spec fn is_defined_at(snapshot: SnapshotView, i: int, token: RawToken) -> bool {
    let function = snapshot.functions[i].function;
    &&& 0 <= i < snapshot.functions.len()
    &&& function.span.file_id == 0
    &&& name_range_of(snapshot, function) matches Ok(range) && is_token_between(
        token,
        range.start,
        range.end,
    )
    &&& token.token_type == 0
    &&& token.modifiers == 3
}

proof fn lemma_span_tokens(spans: Seq<(Span, u32)>, text: Seq<char>, token: RawToken)
    ensures
        span_tokens(spans, text).contains(token) <==> exists|s: int|
            0 <= s < spans.len() && stands_for(token, #[trigger] spans[s], text),
    decreases spans.len(),
{
    let list = span_tokens(spans, text);
    if spans.len() == 0 {
    } else {
        let rest = spans.drop_last();
        let n = rest.len() as int;
        let before = span_tokens(rest, text);
        lemma_span_tokens(rest, text, token);
        assert(spans.last() == spans[n]);
        if list.contains(token) {
            let k = choose|k: int| 0 <= k < list.len() && list[k] == token;
            if k < before.len() {
                assert(before[k] == token);
                let s = choose|s: int|
                    0 <= s < rest.len() && stands_for(token, #[trigger] rest[s], text);
                assert(spans[s] == rest[s]);
            } else {
                assert(stands_for(token, spans[n], text));
            }
        }
        if exists|s: int| 0 <= s < spans.len() && stands_for(token, #[trigger] spans[s], text) {
            let s = choose|s: int|
                0 <= s < spans.len() && stands_for(token, #[trigger] spans[s], text);
            if s < n {
                assert(rest[s] == spans[s]);
                let k = choose|k: int| 0 <= k < before.len() && before[k] == token;
                assert(list[k] == token);
            } else {
                assert(list[list.len() - 1] == token);
            }
        }
    }
}

/// Whether a token stands for one of the spans that a call at an index highlights.
spec fn calls_token(
    calls: Seq<CallView>,
    tokens: Seq<TokenView>,
    text: Seq<char>,
    j: int,
    token: RawToken,
) -> bool {
    0 <= j < calls.len() && span_tokens(highlights(calls[j], tokens), text).contains(token)
}

proof fn lemma_call_tokens(
    calls: Seq<CallView>,
    tokens: Seq<TokenView>,
    text: Seq<char>,
    token: RawToken,
)
    ensures
        call_tokens(calls, tokens, text).contains(token) <==> exists|j: int|
            #[trigger] calls_token(calls, tokens, text, j, token),
    decreases calls.len(),
{
    let list = call_tokens(calls, tokens, text);
    if calls.len() == 0 {
    } else {
        let rest = calls.drop_last();
        let n = rest.len() as int;
        let before = call_tokens(rest, tokens, text);
        let own = span_tokens(highlights(calls[n], tokens), text);
        lemma_call_tokens(rest, tokens, text, token);
        assert(calls.last() == calls[n]);
        if list.contains(token) {
            let k = choose|k: int| 0 <= k < list.len() && list[k] == token;
            if k < before.len() {
                assert(before[k] == token);
                let j = choose|j: int| #[trigger] calls_token(rest, tokens, text, j, token);
                assert(calls_token(calls, tokens, text, j, token));
            } else {
                assert(own[k - before.len()] == token);
                assert(calls_token(calls, tokens, text, n, token));
            }
        }
        if exists|j: int| #[trigger] calls_token(calls, tokens, text, j, token) {
            let j = choose|j: int| #[trigger] calls_token(calls, tokens, text, j, token);
            if j < n {
                assert(calls_token(rest, tokens, text, j, token));
                let k = choose|k: int| 0 <= k < before.len() && before[k] == token;
                assert(list[k] == token);
            } else {
                let k = choose|k: int| 0 <= k < own.len() && own[k] == token;
                assert(list[before.len() + k] == token);
            }
        }
    }
}

/// Whether a token stands for the name or for a call of the entry at an index.
spec fn entry_token(
    entries: Seq<NamedView>,
    names: Seq<Option<Range>>,
    tokens: Seq<TokenView>,
    text: Seq<char>,
    i: int,
    token: RawToken,
) -> bool {
    &&& 0 <= i < entries.len()
    &&& entries[i].function.span.file_id == 0
    &&& name_highlight(names[i]).contains(token) || call_tokens(
        entries[i].function.calls,
        tokens,
        text,
    ).contains(token)
}

proof fn lemma_function_tokens(
    entries: Seq<NamedView>,
    names: Seq<Option<Range>>,
    tokens: Seq<TokenView>,
    text: Seq<char>,
    token: RawToken,
)
    ensures
        function_tokens(entries, names, tokens, text).contains(token) <==> exists|i: int|
            #[trigger] entry_token(entries, names, tokens, text, i, token),
    decreases entries.len(),
{
    let list = function_tokens(entries, names, tokens, text);
    if entries.len() == 0 {
    } else {
        let rest = entries.drop_last();
        let n = rest.len() as int;
        let before = function_tokens(rest, names, tokens, text);
        let own = name_highlight(names[n]);
        let called = call_tokens(entries[n].function.calls, tokens, text);
        lemma_function_tokens(rest, names, tokens, text, token);
        assert(entries.last() == entries[n]);
        if list.contains(token) {
            let k = choose|k: int| 0 <= k < list.len() && list[k] == token;
            if k < before.len() {
                assert(before[k] == token);
                let i = choose|i: int| #[trigger] entry_token(rest, names, tokens, text, i, token);
                assert(entry_token(entries, names, tokens, text, i, token));
            } else {
                if k < before.len() + own.len() {
                    assert(own[k - before.len()] == token);
                } else {
                    assert(called[k - before.len() - own.len()] == token);
                }
                assert(entry_token(entries, names, tokens, text, n, token));
            }
        }
        if exists|i: int| #[trigger] entry_token(entries, names, tokens, text, i, token) {
            let i = choose|i: int| #[trigger] entry_token(entries, names, tokens, text, i, token);
            if i < n {
                assert(entry_token(rest, names, tokens, text, i, token));
                let k = choose|k: int| 0 <= k < before.len() && before[k] == token;
                assert(list[k] == token);
            } else if own.contains(token) {
                let k = choose|k: int| 0 <= k < own.len() && own[k] == token;
                assert(list[before.len() + k] == token);
            } else {
                let k = choose|k: int| 0 <= k < called.len() && called[k] == token;
                assert(list[before.len() + own.len() + k] == token);
            }
        }
    }
}

/// What is highlighted in a document are exactly the names in the definitions of its functions, and
/// the names that their calls highlight, as far as each lies on one line.
pub proof fn law_names_and_calls_are_highlighted(
    snapshot: SnapshotView,
    tokens: Seq<TokenView>,
    token: RawToken,
)
    requires
        tokens == (match lexed(snapshot.text) {
            Some(tokens) => tokens,
            None => Seq::empty(),
        }),
    ensures
        snapshot_tokens(snapshot).contains(token) <==> ((exists|i: int|
            #[trigger] is_defined_at(snapshot, i, token)) || (exists|i: int, j: int|
            #[trigger] is_called_at(snapshot, tokens, i, j, token))),
{
    let entries = snapshot.functions;
    let names = names_found(snapshot, entries);
    let text = snapshot.text;
    assert(root_tokens(text) == tokens);
    lemma_function_tokens(entries, names, tokens, text, token);
    if snapshot_tokens(snapshot).contains(token) {
        let i = choose|i: int| #[trigger] entry_token(entries, names, tokens, text, i, token);
        let calls = entries[i].function.calls;
        if name_highlight(names[i]).contains(token) {
            assert(is_defined_at(snapshot, i, token));
        } else {
            lemma_call_tokens(calls, tokens, text, token);
            let j = choose|j: int| #[trigger] calls_token(calls, tokens, text, j, token);
            lemma_span_tokens(highlights(calls[j], tokens), text, token);
            assert(is_called_at(snapshot, tokens, i, j, token));
        }
    }
    if exists|i: int| #[trigger] is_defined_at(snapshot, i, token) {
        let i = choose|i: int| #[trigger] is_defined_at(snapshot, i, token);
        assert(name_highlight(names[i])[0] == token);
        assert(entry_token(entries, names, tokens, text, i, token));
    }
    if exists|i: int, j: int| #[trigger] is_called_at(snapshot, tokens, i, j, token) {
        let (i, j) = choose|i: int, j: int| #[trigger] is_called_at(snapshot, tokens, i, j, token);
        let calls = entries[i].function.calls;
        lemma_span_tokens(highlights(calls[j], tokens), text, token);
        assert(calls_token(calls, tokens, text, j, token));
        lemma_call_tokens(calls, tokens, text, token);
        assert(entry_token(entries, names, tokens, text, i, token));
    }
}

/// A client that adds the distances up finds every highlighted name once, and finds nothing else.
pub proof fn law_client_finds_every_token(
    tokens: Seq<RawToken>,
    sorted: Seq<RawToken>,
    token: RawToken,
    i: int,
)
    requires
        sorts(sorted, tokens),
    ensures
        tokens.contains(token) ==> exists|k: int|
            0 <= k < encoded(tokens).len() && is_decoded_to(encoded(tokens), k, token),
        0 <= i < encoded(tokens).len() ==> exists|other: RawToken|
            #[trigger] tokens.contains(other) && is_decoded_to(encoded(tokens), i, other),
{
    let chosen = choose|other: Seq<RawToken>| #[trigger] sorts(other, tokens);
    lemma_sorted_unique(sorted, chosen);
    assert(encoded(tokens) == deltas(sorted));
    if tokens.contains(token) {
        assert(tokens.to_set().contains(token));
        assert(sorted.to_set().contains(token));
        let k = choose|k: int| 0 <= k < sorted.len() && sorted[k] == token;
        law_decoding_undoes_encoding(sorted, k);
        assert(is_decoded_to(encoded(tokens), k, token));
    }
    if 0 <= i < sorted.len() {
        law_decoding_undoes_encoding(sorted, i);
        assert(sorted.to_set().contains(sorted[i]));
        assert(tokens.to_set().contains(sorted[i]));
        assert(tokens.contains(sorted[i]));
        assert(is_decoded_to(encoded(tokens), i, sorted[i]));
    }
}

/// Whether a client finds a token at an index.
pub open spec fn is_decoded_to(
    list: Seq<crate::semantic_tokens::SemanticToken>,
    i: int,
    token: RawToken,
) -> bool {
    &&& decoded(list, i) == (token.line as nat, token.character as nat)
    &&& list[i].length == token.length
    &&& list[i].token_type == token.token_type
    &&& list[i].token_modifiers_bitset == token.modifiers
}

} // verus!
