//! What holds of every definition and of all references.

use vstd::prelude::*;

use crate::analysis::sources::{function_of, lemma_index_of, NamedView};
use crate::analysis::SnapshotView;
use crate::chars::utf8_len;
use crate::lexer::{lexed, TokenKind, TokenView};
use crate::navigation::definition::{
    cursor, definition_of, function_around, last_call_around, referenced_at, related_call,
    ReferencedView,
};
use crate::navigation::references::{all_locations, IdentityView, QueryView};
use crate::navigation::{
    has_use, import_around, import_names, imported_function, item_named, name_around,
    name_range_of, name_token,
};
use crate::protocol::{LocationView, Position, Range};
use crate::rope::byte_slice;
use crate::syntax::{CallKind, CallView, FunctionView, UseItemView, UseView};
use crate::text::{position_of_offset, Span};

verus! {

/// Whether an offset of the root lies in a span, or at one of its ends.
pub open spec fn touches(span: Span, offset: nat) -> bool {
    span.file_id == 0 && span.start <= offset <= span.end
}

/// Whether an offset of the root lies in the name that a call starts with, or at one of its ends.
pub open spec fn touches_name(call: CallView, offset: nat) -> bool {
    call.span.file_id == 0 && call.span.start <= offset <= call.span.start + utf8_len(
        call.name.text,
    )
}

/// Whether the function at an index is the first that an offset lies in.
pub open spec fn is_owner(entries: Seq<NamedView>, i: int, offset: nat) -> bool {
    &&& 0 <= i < entries.len()
    &&& touches(entries[i].function.span, offset)
    &&& forall|k: int| 0 <= k < i ==> !touches((#[trigger] entries[k]).function.span, offset)
}

/// Whether the call at an index is the last whose name an offset lies in.
pub open spec fn is_innermost(calls: Seq<CallView>, j: int, offset: nat) -> bool {
    &&& 0 <= j < calls.len()
    &&& touches_name(calls[j], offset)
    &&& forall|k: int| j < k < calls.len() ==> !touches_name(#[trigger] calls[k], offset)
}

/// Whether an offset lies in the name of none of some calls.
pub open spec fn touches_no_name(calls: Seq<CallView>, offset: nat) -> bool {
    forall|k: int| 0 <= k < calls.len() ==> !touches_name(#[trigger] calls[k], offset)
}

/// Whether a name means the function at an index: the first of that name.
pub open spec fn means(entries: Seq<NamedView>, name: Seq<char>, t: int) -> bool {
    &&& 0 <= t < entries.len()
    &&& entries[t].name == name
    &&& forall|k: int| 0 <= k < t ==> (#[trigger] entries[k]).name != name
}

/// Whether the two ends of a function have positions in the text of its source, the root or
/// another that is known.
pub open spec fn defined_at(
    snapshot: SnapshotView,
    function: FunctionView,
    location: LocationView,
) -> bool {
    let file_id = function.span.file_id as nat;
    &&& snapshot.sources.dom().contains(file_id)
    &&& location.uri == snapshot.sources[file_id].uri
    &&& position_of_offset(snapshot.sources[file_id].text, function.span.start as nat) == Some(
        location.range.start,
    )
    &&& position_of_offset(snapshot.sources[file_id].text, function.span.end as nat) == Some(
        location.range.end,
    )
}

/// Whether a position lies in a range, or at one of its ends.
pub open spec fn within(range: Range, position: Position) -> bool {
    &&& range.start.line < position.line || (range.start.line == position.line
        && range.start.character <= position.character)
    &&& position.line < range.end.line || (position.line == range.end.line && position.character
        <= range.end.character)
}

/// A name means the first function of that name.
pub proof fn law_name_means_first_function(entries: Seq<NamedView>, name: Seq<char>, t: int)
    ensures
        means(entries, name, t) ==> function_of(entries, name) == Some(entries[t].function),
        (forall|k: int| 0 <= k < entries.len() ==> (#[trigger] entries[k]).name != name)
            ==> function_of(entries, name) is None,
{
    lemma_index_of(entries, name);
}

/// The function around an offset is the first that the offset lies in.
pub proof fn law_function_around_offset(entries: Seq<NamedView>, i: int, offset: nat)
    requires
        offset <= usize::MAX,
    ensures
        is_owner(entries, i, offset) ==> function_around(entries, cursor(offset)) == Some(
            entries[i].function,
        ),
        (forall|k: int|
            0 <= k < entries.len() ==> !touches((#[trigger] entries[k]).function.span, offset))
            ==> function_around(entries, cursor(offset)) is None,
    decreases entries.len(),
{
    if entries.len() > 0 {
        let rest = entries.drop_first();
        law_function_around_offset(rest, i - 1, offset);
        assert(touches(entries[0].function.span, offset) || !touches(
            entries[0].function.span,
            offset,
        ));
        assert forall|k: int| 0 <= k < rest.len() implies rest[k] == #[trigger] entries[k + 1] by {}
        if is_owner(entries, i, offset) && i > 0 {
            assert(!touches(entries[0].function.span, offset));
            assert forall|k: int| 0 <= k < i - 1 implies !touches(
                (#[trigger] rest[k]).function.span,
                offset,
            ) by {
                assert(!touches(entries[k + 1].function.span, offset));
            }
            assert(rest[i - 1] == entries[i]);
            assert(is_owner(rest, i - 1, offset));
        }
        if forall|k: int|
            0 <= k < entries.len() ==> !touches((#[trigger] entries[k]).function.span, offset) {
            assert forall|k: int| 0 <= k < rest.len() implies !touches(
                (#[trigger] rest[k]).function.span,
                offset,
            ) by {
                assert(!touches(entries[k + 1].function.span, offset));
            }
        }
    }
}

/// The call at an offset is the last of a function's calls whose name the offset lies in.
pub proof fn law_call_at_offset(calls: Seq<CallView>, j: int, offset: nat)
    requires
        offset <= usize::MAX,
    ensures
        is_innermost(calls, j, offset) ==> last_call_around(calls, cursor(offset)) == Some(
            calls[j],
        ),
        touches_no_name(calls, offset) ==> last_call_around(calls, cursor(offset)) is None,
    decreases calls.len(),
{
    if calls.len() > 0 {
        let rest = calls.drop_last();
        law_call_at_offset(rest, j, offset);
        assert(calls.last() == calls[calls.len() - 1]);
        if is_innermost(calls, j, offset) && j < rest.len() {
            assert(!touches_name(calls[calls.len() - 1], offset));
            assert(rest[j] == calls[j]);
            assert forall|k: int| j < k < rest.len() implies !touches_name(
                #[trigger] rest[k],
                offset,
            ) by {
                assert(!touches_name(calls[k], offset));
            }
        }
        if touches_no_name(calls, offset) {
            assert(!touches_name(calls[calls.len() - 1], offset));
            assert forall|k: int| 0 <= k < rest.len() implies !touches_name(
                #[trigger] rest[k],
                offset,
            ) by {
                assert(!touches_name(calls[k], offset));
            }
        }
    }
}

/// A call in the function around an offset of the root is found there, by its name.
pub proof fn law_call_is_found_by_its_name(snapshot: SnapshotView, i: int, j: int, offset: nat)
    requires
        offset <= usize::MAX,
        is_owner(snapshot.functions, i, offset),
    ensures
        is_innermost(snapshot.functions[i].function.calls, j, offset) ==> related_call(
            snapshot,
            cursor(offset),
        ) == Some(snapshot.functions[i].function.calls[j]),
        touches_no_name(snapshot.functions[i].function.calls, offset) ==> related_call(
            snapshot,
            cursor(offset),
        ) is None,
{
    law_function_around_offset(snapshot.functions, i, offset);
    law_call_at_offset(snapshot.functions[i].function.calls, j, offset);
}

/// A call of a function leads to the whole of the function that the name means, in whatever
/// document it stands.
pub proof fn law_call_leads_to_its_function(
    snapshot: SnapshotView,
    uri: Seq<char>,
    position: Position,
    offset: nat,
    i: int,
    j: int,
    t: int,
    location: LocationView,
)
    requires
        offset <= usize::MAX,
        imported_function(snapshot, cursor(offset)) is None,
        is_owner(snapshot.functions, i, offset),
        is_innermost(snapshot.functions[i].function.calls, j, offset),
        snapshot.functions[i].function.calls[j].name.kind == CallKind::Custom,
        means(snapshot.functions, snapshot.functions[i].function.calls[j].name.function, t),
        defined_at(snapshot, snapshot.functions[t].function, location),
    ensures
        definition_of(snapshot, uri, position, offset) == Ok::<
            Option<LocationView>,
            Option<Seq<char>>,
        >(Some(location)),
{
    law_call_is_found_by_its_name(snapshot, i, j, offset);
    let call = snapshot.functions[i].function.calls[j];
    law_name_means_first_function(snapshot.functions, call.name.function, t);
}

/// A call of something built in, or by a name that means nothing, leads nowhere.
pub proof fn law_other_calls_lead_nowhere(
    snapshot: SnapshotView,
    uri: Seq<char>,
    position: Position,
    offset: nat,
    i: int,
    j: int,
)
    requires
        offset <= usize::MAX,
        imported_function(snapshot, cursor(offset)) is None,
        is_owner(snapshot.functions, i, offset),
        is_innermost(snapshot.functions[i].function.calls, j, offset),
        snapshot.functions[i].function.calls[j].name.kind != CallKind::Custom || forall|k: int|
            0 <= k < snapshot.functions.len() ==> (#[trigger] snapshot.functions[k]).name
                != snapshot.functions[i].function.calls[j].name.function,
    ensures
        definition_of(snapshot, uri, position, offset) == Ok::<
            Option<LocationView>,
            Option<Seq<char>>,
        >(None),
{
    law_call_is_found_by_its_name(snapshot, i, j, offset);
    let call = snapshot.functions[i].function.calls[j];
    law_name_means_first_function(snapshot.functions, call.name.function, 0);
}

/// A call of a function in a source that is not known leads nowhere, and so does a name that is
/// imported from one.
pub proof fn law_unknown_sources_lead_nowhere(
    snapshot: SnapshotView,
    uri: Seq<char>,
    position: Position,
    offset: nat,
    i: int,
    j: int,
    t: int,
)
    requires
        offset <= usize::MAX,
        0 <= t < snapshot.functions.len(),
        !snapshot.sources.dom().contains(snapshot.functions[t].function.span.file_id as nat),
        imported_function(snapshot, cursor(offset)) == Some(snapshot.functions[t].function) || (
        imported_function(snapshot, cursor(offset)) is None && is_owner(
            snapshot.functions,
            i,
            offset,
        ) && is_innermost(snapshot.functions[i].function.calls, j, offset)
            && snapshot.functions[i].function.calls[j].name.kind == CallKind::Custom && means(
            snapshot.functions,
            snapshot.functions[i].function.calls[j].name.function,
            t,
        )),
    ensures
        definition_of(snapshot, uri, position, offset) == Ok::<
            Option<LocationView>,
            Option<Seq<char>>,
        >(None),
{
    if imported_function(snapshot, cursor(offset)) is None {
        law_call_is_found_by_its_name(snapshot, i, j, offset);
        let call = snapshot.functions[i].function.calls[j];
        law_name_means_first_function(snapshot.functions, call.name.function, t);
    }
}

/// An imported name leads to the whole of the function that it brings in, whatever else is there.
pub proof fn law_imported_name_leads_to_its_function(
    snapshot: SnapshotView,
    uri: Seq<char>,
    position: Position,
    offset: nat,
    function: FunctionView,
    location: LocationView,
)
    requires
        imported_function(snapshot, cursor(offset)) == Some(function),
        defined_at(snapshot, function, location),
    ensures
        definition_of(snapshot, uri, position, offset) == Ok::<
            Option<LocationView>,
            Option<Seq<char>>,
        >(Some(location)),
{
}

/// Where no call and no import is, the name of a function leads to itself, and the rest of the
/// function leads nowhere.
pub proof fn law_name_of_function_leads_to_itself(
    snapshot: SnapshotView,
    uri: Seq<char>,
    position: Position,
    offset: nat,
    i: int,
    range: Range,
)
    requires
        offset <= usize::MAX,
        imported_function(snapshot, cursor(offset)) is None,
        is_owner(snapshot.functions, i, offset),
        touches_no_name(snapshot.functions[i].function.calls, offset),
        name_range_of(snapshot, snapshot.functions[i].function) == Ok::<Range, Option<Seq<char>>>(
            range,
        ),
    ensures
        definition_of(snapshot, uri, position, offset) == Ok::<
            Option<LocationView>,
            Option<Seq<char>>,
        >(
            if within(range, position) {
                Some(LocationView { uri, range })
            } else {
                None
            },
        ),
{
    law_call_is_found_by_its_name(snapshot, i, 0, offset);
    law_function_around_offset(snapshot.functions, i, offset);
}

/// Outside of imports and functions there is no definition and there are no references.
pub proof fn law_nothing_leads_nowhere(
    snapshot: SnapshotView,
    uri: Seq<char>,
    position: Position,
    offset: nat,
)
    requires
        offset <= usize::MAX,
        imported_function(snapshot, cursor(offset)) is None,
        forall|k: int|
            0 <= k < snapshot.functions.len() ==> !touches(
                (#[trigger] snapshot.functions[k]).function.span,
                offset,
            ),
    ensures
        definition_of(snapshot, uri, position, offset) == Ok::<
            Option<LocationView>,
            Option<Seq<char>>,
        >(None),
        referenced_at(snapshot, position, offset) == Ok::<
            Option<ReferencedView>,
            Option<Seq<char>>,
        >(None),
{
    law_function_around_offset(snapshot.functions, 0, offset);
}

/// Whether a function is known by its document and by where it stands there.
pub open spec fn identifies(
    snapshot: SnapshotView,
    function: FunctionView,
    identity: IdentityView,
) -> bool {
    let file_id = function.span.file_id as nat;
    &&& snapshot.sources.dom().contains(file_id)
    &&& identity.uri == snapshot.sources[file_id].uri
    &&& identity.start == function.span.start
    &&& identity.end == function.span.end
}

/// On a call of a function the references are those of the function that the name means.
pub proof fn law_call_asks_for_its_function(
    snapshot: SnapshotView,
    position: Position,
    offset: nat,
    i: int,
    j: int,
    t: int,
    identity: IdentityView,
)
    requires
        offset <= usize::MAX,
        is_owner(snapshot.functions, i, offset),
        is_innermost(snapshot.functions[i].function.calls, j, offset),
        snapshot.functions[i].function.calls[j].name.kind == CallKind::Custom,
        means(snapshot.functions, snapshot.functions[i].function.calls[j].name.function, t),
        identifies(snapshot, snapshot.functions[t].function, identity),
    ensures
        referenced_at(snapshot, position, offset) == Ok::<
            Option<ReferencedView>,
            Option<Seq<char>>,
        >(Some(ReferencedView::Function(identity))),
{
    law_call_is_found_by_its_name(snapshot, i, j, offset);
    let call = snapshot.functions[i].function.calls[j];
    law_name_means_first_function(snapshot.functions, call.name.function, t);
}

/// On a call of something built in the references are the calls of the same name in the same
/// analysis.
pub proof fn law_built_in_asks_for_its_name(
    snapshot: SnapshotView,
    position: Position,
    offset: nat,
    i: int,
    j: int,
    locations: Seq<LocationView>,
)
    requires
        offset <= usize::MAX,
        is_owner(snapshot.functions, i, offset),
        is_innermost(snapshot.functions[i].function.calls, j, offset),
        snapshot.functions[i].function.calls[j].name.kind != CallKind::Custom,
        all_locations(
            snapshot,
            QueryView::Named(snapshot.functions[i].function.calls[j].name),
        ) == Some(locations),
    ensures
        referenced_at(snapshot, position, offset) == Ok::<
            Option<ReferencedView>,
            Option<Seq<char>>,
        >(Some(ReferencedView::Calls(locations))),
{
    law_call_is_found_by_its_name(snapshot, i, j, offset);
}

/// Where no call is, the name of a function asks for the references of that function, and the rest
/// of it asks for none.
pub proof fn law_name_of_function_asks_for_itself(
    snapshot: SnapshotView,
    position: Position,
    offset: nat,
    i: int,
    range: Range,
    identity: IdentityView,
)
    requires
        offset <= usize::MAX,
        is_owner(snapshot.functions, i, offset),
        touches_no_name(snapshot.functions[i].function.calls, offset),
        name_range_of(snapshot, snapshot.functions[i].function) == Ok::<Range, Option<Seq<char>>>(
            range,
        ),
        identifies(snapshot, snapshot.functions[i].function, identity),
    ensures
        referenced_at(snapshot, position, offset) == Ok::<
            Option<ReferencedView>,
            Option<Seq<char>>,
        >(
            if within(range, position) {
                Some(ReferencedView::Function(identity))
            } else {
                None
            },
        ),
{
    law_call_is_found_by_its_name(snapshot, i, 0, offset);
    law_function_around_offset(snapshot.functions, i, offset);
}

/// Whether the tokens at an index are an `fn` and a name.
pub open spec fn defines(tokens: Seq<TokenView>, m: int, name: Seq<char>) -> bool {
    &&& 0 <= m < tokens.len() - 1
    &&& tokens[m].kind == TokenKind::Fn
    &&& tokens[m + 1].kind == TokenKind::Ident
    &&& tokens[m + 1].text == name
}

/// The name of a function is the one behind the first `fn` that has it behind.
proof fn lemma_first_name_token(tokens: Seq<TokenView>, name: Seq<char>, m: int)
    ensures
        defines(tokens, m, name) && (forall|k: int|
            0 <= k < m ==> !#[trigger] defines(tokens, k, name)) ==> name_token(tokens, name)
            == Some(tokens[m + 1]),
        (forall|k: int| !#[trigger] defines(tokens, k, name)) ==> name_token(tokens, name) is None,
    decreases tokens.len(),
{
    if tokens.len() >= 2 {
        let rest = tokens.drop_first();
        lemma_first_name_token(rest, name, m - 1);
        let first = forall|k: int| 0 <= k < m ==> !#[trigger] defines(tokens, k, name);
        let none = forall|k: int| !#[trigger] defines(tokens, k, name);
        if defines(tokens, m, name) && first && m > 0 {
            assert(!defines(tokens, 0, name));
            assert(defines(rest, m - 1, name));
            assert forall|k: int| 0 <= k < m - 1 implies !#[trigger] defines(rest, k, name) by {
                assert(!defines(tokens, k + 1, name));
            }
            assert(rest[m] == tokens[m + 1]);
        }
        if none {
            assert(!defines(tokens, 0, name));
            assert forall|k: int| !#[trigger] defines(rest, k, name) by {
                assert(!defines(tokens, k + 1, name));
            }
        }
    }
}

/// The range of a function's name is that of the name behind the first `fn` of its definition that
/// has the name behind it, in the root or in another source that is known.
pub proof fn law_name_stands_behind_fn(
    snapshot: SnapshotView,
    function: FunctionView,
    text: Seq<char>,
    source: Seq<char>,
    tokens: Seq<TokenView>,
    m: int,
    range: Range,
)
    requires
        text == (if function.span.file_id == 0 {
            snapshot.text
        } else {
            snapshot.sources[function.span.file_id as nat].text
        }),
        function.span.file_id == 0 || snapshot.sources.dom().contains(
            function.span.file_id as nat,
        ),
        byte_slice(text, function.span.start as nat, function.span.end as nat) == Some(source),
        lexed(source) == Some(tokens),
        defines(tokens, m, function.name),
        forall|k: int| 0 <= k < m ==> !#[trigger] defines(tokens, k, function.name),
        position_of_offset(text, function.span.start as nat + tokens[m + 1].start) == Some(
            range.start,
        ),
        position_of_offset(text, function.span.start as nat + tokens[m + 1].end) == Some(
            range.end,
        ),
    ensures
        name_range_of(snapshot, function) == Ok::<Range, Option<Seq<char>>>(range),
{
    lemma_first_name_token(tokens, function.name, m);
}

/// Whether the import at an index is the one around an offset: the shortest, and of several as
/// short the first.
pub open spec fn is_import(uses: Seq<UseView>, d: int, offset: nat) -> bool {
    &&& 0 <= d < uses.len()
    &&& touches(uses[d].span, offset)
    &&& forall|k: int|
        0 <= k < uses.len() && touches((#[trigger] uses[k]).span, offset) ==> {
            let own = uses[d].span.end - uses[d].span.start;
            let other = uses[k].span.end - uses[k].span.start;
            (k < d ==> own < other) && (k > d ==> own <= other)
        }
}

/// Whether an offset lies in none of some imports.
pub open spec fn is_outside(uses: Seq<UseView>, offset: nat) -> bool {
    forall|k: int| 0 <= k < uses.len() ==> !touches((#[trigger] uses[k]).span, offset)
}

/// The import around an offset is the shortest that it lies in.
pub proof fn law_import_around_offset(uses: Seq<UseView>, d: int, offset: nat)
    requires
        offset <= usize::MAX,
    ensures
        is_import(uses, d, offset) ==> import_around(uses, cursor(offset)) == Some(uses[d]),
        is_outside(uses, offset) ==> import_around(uses, cursor(offset)) is None,
    decreases uses.len(),
{
    if uses.len() > 0 {
        let rest = uses.drop_last();
        let n = rest.len() as int;
        assert(uses.last() == uses[n]);
        assert forall|k: int| 0 <= k < n implies #[trigger] rest[k] == uses[k] by {}
        if is_outside(uses, offset) {
            law_import_around_offset(rest, d, offset);
            assert(!touches(uses[n].span, offset));
        }
        if is_import(uses, d, offset) {
            if d < n {
                law_import_around_offset(rest, d, offset);
                assert(is_import(rest, d, offset));
            } else if is_outside(rest, offset) {
                law_import_around_offset(rest, d, offset);
            } else {
                lemma_some_import(rest, offset);
                let e = choose|e: int| is_import(rest, e, offset);
                law_import_around_offset(rest, e, offset);
                assert(touches(uses[e].span, offset));
            }
        }
    }
}

/// Of the imports that an offset lies in one is the shortest and first.
proof fn lemma_some_import(uses: Seq<UseView>, offset: nat)
    requires
        !is_outside(uses, offset),
    ensures
        exists|e: int| is_import(uses, e, offset),
    decreases uses.len(),
{
    if uses.len() > 0 {
        let rest = uses.drop_last();
        let n = rest.len() as int;
        assert forall|k: int| 0 <= k < n implies #[trigger] rest[k] == uses[k] by {}
        if is_outside(rest, offset) {
            assert forall|k: int| 0 <= k < n implies !touches((#[trigger] uses[k]).span, offset) by {
                assert(!touches(rest[k].span, offset));
            }
            assert(is_import(uses, n, offset));
        } else {
            lemma_some_import(rest, offset);
            let e = choose|e: int| is_import(rest, e, offset);
            assert(touches(rest[e].span, offset));
            if touches(uses[n].span, offset) && uses[n].span.end - uses[n].span.start
                < uses[e].span.end - uses[e].span.start {
                assert forall|k: int|
                    0 <= k < n && touches((#[trigger] uses[k]).span, offset) implies uses[n].span.end
                    - uses[n].span.start < uses[k].span.end - uses[k].span.start by {
                    assert(touches(rest[k].span, offset));
                }
                assert(is_import(uses, n, offset));
            } else {
                assert forall|k: int|
                    0 <= k < uses.len() && touches((#[trigger] uses[k]).span, offset) implies {
                    let own = uses[e].span.end - uses[e].span.start;
                    let other = uses[k].span.end - uses[k].span.start;
                    (k < e ==> own < other) && (k > e ==> own <= other)
                } by {
                    if k < n {
                        assert(touches(rest[k].span, offset));
                    }
                }
                assert(is_import(uses, e, offset));
            }
        }
    }
}

/// Whether a token lies in a span.
pub open spec fn lies_inside(token: TokenView, span: Span) -> bool {
    span.start <= token.start && token.end <= span.end
}

/// The names of an import are its identifiers and its `crate`, behind its `use` and up to its end,
/// in their order.
pub proof fn law_names_of_import(tokens: Seq<TokenView>, token: TokenView, span: Span)
    ensures
        import_names(Seq::empty(), span).len() == 0,
        import_names(tokens.push(token), span) == (if (token.kind == TokenKind::Ident || token.kind
            == TokenKind::Crate) && lies_inside(token, span) && exists|k: int|
            0 <= k < tokens.len() && (#[trigger] tokens[k]).kind == TokenKind::Use && lies_inside(
                tokens[k],
                span,
            ) {
            import_names(tokens, span).push(token)
        } else {
            import_names(tokens, span)
        }),
{
    assert(tokens.push(token).drop_last() =~= tokens);
    lemma_has_use(tokens, span);
}

proof fn lemma_has_use(tokens: Seq<TokenView>, span: Span)
    ensures
        has_use(tokens, span) <==> exists|k: int|
            0 <= k < tokens.len() && (#[trigger] tokens[k]).kind == TokenKind::Use && lies_inside(
                tokens[k],
                span,
            ),
    decreases tokens.len(),
{
    if tokens.len() > 0 {
        let rest = tokens.drop_last();
        lemma_has_use(rest, span);
        if has_use(rest, span) {
            let k = choose|k: int|
                0 <= k < rest.len() && (#[trigger] rest[k]).kind == TokenKind::Use && lies_inside(
                    rest[k],
                    span,
                );
            assert(tokens[k] == rest[k]);
        }
        if exists|k: int|
            0 <= k < tokens.len() && (#[trigger] tokens[k]).kind == TokenKind::Use && lies_inside(
                tokens[k],
                span,
            ) {
            let k = choose|k: int|
                0 <= k < tokens.len() && (#[trigger] tokens[k]).kind == TokenKind::Use
                    && lies_inside(tokens[k], span);
            if k < rest.len() {
                assert(rest[k] == tokens[k]);
            }
        } else if tokens.last().kind == TokenKind::Use && lies_inside(tokens.last(), span) {
            assert(tokens[tokens.len() - 1].kind == TokenKind::Use);
        }
    }
}

/// Whether the name at an index is the first that an offset lies in.
pub open spec fn is_first_name(names: Seq<TokenView>, n: int, offset: nat) -> bool {
    &&& 0 <= n < names.len()
    &&& names[n].start <= offset <= names[n].end
    &&& forall|k: int|
        0 <= k < n ==> !((#[trigger] names[k]).start <= offset && offset <= names[k].end)
}

/// The name at an offset is the first that the offset lies in.
pub proof fn law_name_at_offset(names: Seq<TokenView>, n: int, offset: nat)
    requires
        offset <= usize::MAX,
    ensures
        is_first_name(names, n, offset) ==> name_around(names, cursor(offset)) == Some(n as nat),
        (forall|k: int|
            0 <= k < names.len() ==> !((#[trigger] names[k]).start <= offset && offset
                <= names[k].end)) ==> name_around(names, cursor(offset)) is None,
    decreases names.len(),
{
    if names.len() > 0 {
        let rest = names.drop_first();
        law_name_at_offset(rest, n - 1, offset);
        assert forall|k: int| 0 <= k < rest.len() implies rest[k] == #[trigger] names[k + 1] by {}
        if is_first_name(names, n, offset) && n > 0 {
            assert(!(names[0].start <= offset && offset <= names[0].end));
            assert(rest[n - 1] == names[n]);
            assert forall|k: int| 0 <= k < n - 1 implies !((#[trigger] rest[k]).start <= offset
                && offset <= rest[k].end) by {
                assert(rest[k] == names[k + 1]);
            }
            assert(is_first_name(rest, n - 1, offset));
        }
        if forall|k: int|
            0 <= k < names.len() ==> !((#[trigger] names[k]).start <= offset && offset
                <= names[k].end) {
            assert forall|k: int| 0 <= k < rest.len() implies !((#[trigger] rest[k]).start
                <= offset && offset <= rest[k].end) by {
                assert(rest[k] == names[k + 1]);
            }
        }
    }
}

/// The number of names that some items are written with: their own, and those they get.
pub open spec fn names_written(items: Seq<UseItemView>) -> nat
    decreases items.len(),
{
    if items.len() == 0 {
        0
    } else {
        names_written(items.drop_last()) + (if items.last().alias is Some {
            2nat
        } else {
            1nat
        })
    }
}

/// An item is found by its own name, and by the one it gets.
pub proof fn law_item_is_found_by_its_names(items: Seq<UseItemView>, m: int, index: int)
    ensures
        0 <= m < items.len() && index == names_written(items.take(m)) ==> item_named(items, index)
            == Some(items[m]),
        0 <= m < items.len() && items[m].alias is Some && index == names_written(items.take(m)) + 1
            ==> item_named(items, index) == Some(items[m]),
        index < 0 || index >= names_written(items) ==> item_named(items, index) is None,
    decreases items.len(),
{
    if items.len() > 0 {
        let rest = items.drop_first();
        let width: int = if items[0].alias is Some {
            2
        } else {
            1
        };
        law_item_is_found_by_its_names(rest, m - 1, index - width);
        lemma_names_written(items);
        if 0 < m < items.len() {
            lemma_names_written(items.take(m));
            assert(items.take(m).drop_first() =~= rest.take(m - 1));
            assert(rest[m - 1] == items[m]);
        } else if m == 0 {
            assert(items.take(0) =~= Seq::<UseItemView>::empty());
        }
    }
}

proof fn lemma_names_written(items: Seq<UseItemView>)
    requires
        items.len() > 0,
    ensures
        names_written(items) == names_written(items.drop_first()) + (if items[0].alias is Some {
            2nat
        } else {
            1nat
        }),
    decreases items.len(),
{
    reveal_with_fuel(names_written, 2);
    if items.len() > 1 {
        lemma_names_written(items.drop_last());
        assert(items.drop_last().drop_first() =~= items.drop_first().drop_last());
    } else {
        assert(items.drop_last() =~= items.drop_first());
    }
}

/// The name of an imported item, and the one it gets, mean the function of the name by which the
/// item is known here.
pub proof fn law_imported_name_means_its_function(
    snapshot: SnapshotView,
    offset: nat,
    tokens: Seq<TokenView>,
    d: int,
    n: int,
    m: int,
    t: int,
)
    requires
        offset <= usize::MAX,
        lexed(snapshot.text) == Some(tokens),
        is_import(snapshot.use_declarations, d, offset),
        is_first_name(import_names(tokens, snapshot.use_declarations[d].span), n, offset),
        0 <= m < snapshot.use_declarations[d].items.len(),
        ({
            let import = snapshot.use_declarations[d];
            let item = import.items[m];
            let first = import.path.len() + names_written(import.items.take(m));
            &&& n == first || (item.alias is Some && n == first + 1)
            &&& means(
                snapshot.functions,
                match item.alias {
                    Some(alias) => alias,
                    None => item.name,
                },
                t,
            )
        }),
    ensures
        imported_function(snapshot, cursor(offset)) == Some(snapshot.functions[t].function),
{
    let import = snapshot.use_declarations[d];
    let item = import.items[m];
    law_import_around_offset(snapshot.use_declarations, d, offset);
    law_name_at_offset(import_names(tokens, import.span), n, offset);
    law_item_is_found_by_its_names(import.items, m, n - import.path.len());
    law_name_means_first_function(snapshot.functions, item.local(), t);
}

/// Outside of imports nothing is imported, nor by the names of a path.
pub proof fn law_paths_import_nothing(
    snapshot: SnapshotView,
    offset: nat,
    tokens: Seq<TokenView>,
    d: int,
    n: int,
)
    requires
        offset <= usize::MAX,
    ensures
        is_outside(snapshot.use_declarations, offset) ==> imported_function(
            snapshot,
            cursor(offset),
        ) is None,
        lexed(snapshot.text) is None ==> imported_function(snapshot, cursor(offset)) is None,
        lexed(snapshot.text) == Some(tokens) && is_import(
            snapshot.use_declarations,
            d,
            offset,
        ) && is_first_name(
            import_names(tokens, snapshot.use_declarations[d].span),
            n,
            offset,
        ) && n < snapshot.use_declarations[d].path.len() ==> imported_function(
            snapshot,
            cursor(offset),
        ) is None,
{
    law_import_around_offset(snapshot.use_declarations, d, offset);
    if lexed(snapshot.text) == Some(tokens) && is_import(snapshot.use_declarations, d, offset) {
        let import = snapshot.use_declarations[d];
        law_name_at_offset(import_names(tokens, import.span), n, offset);
        law_item_is_found_by_its_names(import.items, 0, n - import.path.len());
    }
}

} // verus!
