//! What holds of all references to a function, and of all calls of a name.

use vstd::prelude::*;

use crate::analysis::scopes::{scope_owning, ScopeView};
use crate::analysis::sources::{NamedView, SourceView};
use crate::analysis::{called_function, SnapshotView};
use crate::chars::utf8_len;
use crate::navigation::laws::{identifies, law_name_means_first_function, means};
use crate::navigation::references::{
    all_locations, call_locations, identity_of, is_searched, reference_locations, IdentityView,
    QueryView,
};
use crate::protocol::LocationView;
use crate::syntax::{CallKind, CallView, FunctionView};
use crate::text::{position_of_offset, Span};
use crate::workspace::references::references_found;

verus! {

/// Whether some functions are those that are visible in the body of the function at a span: those of
/// the last scope that the function stands in, or those of the root where it stands in none.
pub open spec fn visible_in(snapshot: SnapshotView, owner: Span, entries: Seq<NamedView>) -> bool {
    let scopes = snapshot.call_scopes;
    ||| exists|s: int|
        0 <= s < scopes.len() && (#[trigger] scopes[s]).owners.contains(owner) && entries
            == scopes[s].bindings && forall|k: int|
            s < k < scopes.len() ==> !(#[trigger] scopes[k]).owners.contains(owner)
    ||| entries == snapshot.functions && forall|k: int|
        0 <= k < scopes.len() ==> !(#[trigger] scopes[k]).owners.contains(owner)
}

/// A name in the body of a function means what it means among the functions that are visible there.
pub proof fn law_scope_decides(
    snapshot: SnapshotView,
    owner: Span,
    name: Seq<char>,
    entries: Seq<NamedView>,
    t: int,
)
    requires
        visible_in(snapshot, owner, entries),
    ensures
        means(entries, name, t) ==> called_function(snapshot, owner, name) == Some(
            entries[t].function,
        ),
        (forall|k: int| 0 <= k < entries.len() ==> (#[trigger] entries[k]).name != name)
            ==> called_function(snapshot, owner, name) is None,
{
    law_name_means_first_function(entries, name, t);
    lemma_scope_owning(snapshot.call_scopes, owner);
}

proof fn lemma_scope_owning(scopes: Seq<ScopeView>, owner: Span)
    ensures
        forall|s: int|
            0 <= s < scopes.len() && (#[trigger] scopes[s]).owners.contains(owner) && (forall|k: int|
                s < k < scopes.len() ==> !(#[trigger] scopes[k]).owners.contains(owner))
                ==> scope_owning(scopes, owner) == Some(scopes[s].bindings),
        (forall|k: int| 0 <= k < scopes.len() ==> !(#[trigger] scopes[k]).owners.contains(owner))
            ==> scope_owning(scopes, owner) is None,
    decreases scopes.len(),
{
    if scopes.len() > 0 {
        let rest = scopes.drop_last();
        let n = rest.len() as int;
        lemma_scope_owning(rest, owner);
        assert forall|k: int| 0 <= k < n implies #[trigger] rest[k] == scopes[k] by {}
        assert forall|s: int|
            0 <= s < scopes.len() && (#[trigger] scopes[s]).owners.contains(owner) && (forall|k: int|
                s < k < scopes.len() ==> !(#[trigger] scopes[k]).owners.contains(
                    owner,
                )) implies scope_owning(scopes, owner) == Some(scopes[s].bindings) by {
            if s < n {
                assert(!scopes[n].owners.contains(owner));
                assert(rest[s] == scopes[s]);
                assert forall|k: int| s < k < n implies !(#[trigger] rest[k]).owners.contains(
                    owner,
                ) by {
                    assert(!scopes[k].owners.contains(owner));
                }
            }
        }
        if forall|k: int| 0 <= k < scopes.len() ==> !(#[trigger] scopes[k]).owners.contains(owner) {
            assert(!scopes[n].owners.contains(owner));
            assert forall|k: int| 0 <= k < n implies !(#[trigger] rest[k]).owners.contains(owner) by {
                assert(!scopes[k].owners.contains(owner));
            }
        }
    }
}

/// Whether a call is looked for: one of the same kind and spelling, or one of a function whose name
/// means the function that is looked for where the call stands.
pub open spec fn is_wanted(
    snapshot: SnapshotView,
    query: QueryView,
    owner: Span,
    call: CallView,
) -> bool {
    match query {
        QueryView::Named(name) => call.name.kind == name.kind && call.name.text == name.text,
        QueryView::To(target) => call.name.kind == CallKind::Custom && (called_function(
            snapshot,
            owner,
            call.name.function,
        ) matches Some(function) && identifies(snapshot, function, target)),
    }
}

/// Whether the name that a call starts with stands at a location of a source.
pub open spec fn call_stands_at(source: SourceView, call: CallView, location: LocationView) -> bool {
    let end = call.span.start + utf8_len(call.name.text);
    &&& location.uri == source.uri
    &&& position_of_offset(source.text, call.span.start as nat) == Some(location.range.start)
    &&& position_of_offset(
        source.text,
        if end <= usize::MAX {
            end as nat
        } else {
            usize::MAX as nat
        },
    ) == Some(location.range.end)
}

/// Whether two functions are the same definition in the same document.
pub open spec fn same_definition(snapshot: SnapshotView, a: FunctionView, b: FunctionView) -> bool {
    let first = a.span.file_id as nat;
    let second = b.span.file_id as nat;
    &&& snapshot.sources.dom().contains(first)
    &&& snapshot.sources.dom().contains(second)
    &&& snapshot.sources[first].uri == snapshot.sources[second].uri
    &&& a.span.start == b.span.start
    &&& a.span.end == b.span.end
}

/// Whether the body of the function at an index is looked through: its source is known and, where a
/// function is looked for, no earlier one is the same definition.
pub open spec fn is_looked_through(snapshot: SnapshotView, query: QueryView, i: int) -> bool {
    let entries = snapshot.functions;
    &&& 0 <= i < entries.len()
    &&& snapshot.sources.dom().contains(entries[i].function.span.file_id as nat)
    &&& query is To ==> forall|k: int|
        0 <= k < i ==> !same_definition(
            snapshot,
            (#[trigger] entries[k]).function,
            entries[i].function,
        )
}

/// Whether the call at an index of the body of the function at an index is looked for, and its name
/// stands at a location.
pub open spec fn is_found_at(
    snapshot: SnapshotView,
    query: QueryView,
    i: int,
    j: int,
    location: LocationView,
) -> bool {
    let function = snapshot.functions[i].function;
    &&& is_looked_through(snapshot, query, i)
    &&& 0 <= j < function.calls.len()
    &&& is_wanted(snapshot, query, function.span, function.calls[j])
    &&& call_stands_at(
        snapshot.sources[function.span.file_id as nat],
        function.calls[j],
        location,
    )
}

/// What is found among some calls: exactly the names of those that are looked for.
proof fn lemma_call_locations(
    snapshot: SnapshotView,
    query: QueryView,
    source: SourceView,
    owner: FunctionView,
    calls: Seq<CallView>,
)
    ensures
        match call_locations(snapshot, query, source, owner, calls) {
            Some(list) => {
                &&& forall|j: int, location: LocationView|
                    0 <= j < calls.len() && is_wanted(snapshot, query, owner.span, calls[j])
                        && #[trigger] call_stands_at(source, calls[j], location) ==> list.contains(
                        location,
                    )
                &&& forall|location: LocationView| #[trigger]
                    list.contains(location) ==> exists|j: int|
                        0 <= j < calls.len() && is_wanted(snapshot, query, owner.span, calls[j])
                            && #[trigger] call_stands_at(source, calls[j], location)
            },
            None => exists|j: int|
                0 <= j < calls.len() && is_wanted(
                    snapshot,
                    query,
                    owner.span,
                    #[trigger] calls[j],
                ) && forall|location: LocationView|
                    !#[trigger] call_stands_at(source, calls[j], location),
        },
    decreases calls.len(),
{
    if calls.len() > 0 {
        let rest = calls.drop_last();
        let n = rest.len() as int;
        lemma_call_locations(snapshot, query, source, owner, rest);
        assert forall|k: int| 0 <= k < n implies #[trigger] rest[k] == calls[k] by {}
        assert(calls.last() == calls[n]);
        let last = calls[n];
        match call_locations(snapshot, query, source, owner, calls) {
            Some(list) => {
                let before = call_locations(snapshot, query, source, owner, rest)->0;
                assert forall|j: int, location: LocationView|
                    0 <= j < calls.len() && is_wanted(snapshot, query, owner.span, calls[j])
                        && #[trigger] call_stands_at(
                        source,
                        calls[j],
                        location,
                    ) implies list.contains(location) by {
                    if j < n {
                        assert(call_stands_at(source, rest[j], location));
                        assert(before.contains(location));
                        let k = choose|k: int| 0 <= k < before.len() && before[k] == location;
                        assert(list[k] == location);
                    } else {
                        assert(list[list.len() - 1] == location);
                    }
                }
                assert forall|location: LocationView| #[trigger]
                    list.contains(location) implies exists|j: int|
                    0 <= j < calls.len() && is_wanted(snapshot, query, owner.span, calls[j])
                        && #[trigger] call_stands_at(source, calls[j], location) by {
                    let k = choose|k: int| 0 <= k < list.len() && list[k] == location;
                    if k < before.len() {
                        assert(before[k] == location);
                        assert(before.contains(location));
                        let j = choose|j: int|
                            0 <= j < rest.len() && is_wanted(snapshot, query, owner.span, rest[j])
                                && #[trigger] call_stands_at(source, rest[j], location);
                        assert(call_stands_at(source, calls[j], location));
                    } else {
                        assert(call_stands_at(source, calls[n], location));
                    }
                }
            },
            None => {
                if call_locations(snapshot, query, source, owner, rest) is None {
                    let j = choose|j: int|
                        0 <= j < rest.len() && is_wanted(
                            snapshot,
                            query,
                            owner.span,
                            #[trigger] rest[j],
                        ) && forall|location: LocationView|
                            !#[trigger] call_stands_at(source, rest[j], location);
                    assert(calls[j] == rest[j]);
                } else {
                    assert forall|location: LocationView| !#[trigger] call_stands_at(
                        source,
                        calls[n],
                        location,
                    ) by {}
                    assert(is_wanted(snapshot, query, owner.span, calls[n]));
                }
            },
        }
    }
}

/// Which functions are looked through.
proof fn lemma_is_searched(snapshot: SnapshotView, query: QueryView, i: int)
    requires
        0 <= i < snapshot.functions.len(),
    ensures
        is_searched(snapshot, query, snapshot.functions, i) == is_looked_through(
            snapshot,
            query,
            i,
        ),
{
    let entries = snapshot.functions;
    assert forall|k: int| 0 <= k < i && identity_of(snapshot, entries[i].function) is Some implies (
    identity_of(snapshot, (#[trigger] entries[k]).function) == identity_of(
        snapshot,
        entries[i].function,
    )) == same_definition(snapshot, entries[k].function, entries[i].function) by {}
}

proof fn lemma_reference_locations(snapshot: SnapshotView, query: QueryView, n: int)
    requires
        0 <= n <= snapshot.functions.len(),
    ensures
        match reference_locations(snapshot, query, snapshot.functions, n) {
            Some(list) => {
                &&& forall|i: int, j: int, location: LocationView|
                    0 <= i < n && #[trigger] is_found_at(snapshot, query, i, j, location)
                        ==> list.contains(location)
                &&& forall|location: LocationView| #[trigger]
                    list.contains(location) ==> exists|i: int, j: int|
                        0 <= i < n && #[trigger] is_found_at(snapshot, query, i, j, location)
            },
            None => exists|i: int, j: int|
                0 <= i < n && #[trigger] has_no_place(snapshot, query, i, j),
        },
    decreases n,
{
    if n > 0 {
        let entries = snapshot.functions;
        lemma_reference_locations(snapshot, query, n - 1);
        lemma_is_searched(snapshot, query, n - 1);
        let function = entries[n - 1].function;
        let source = snapshot.sources[function.span.file_id as nat];
        let before = reference_locations(snapshot, query, entries, n - 1);
        let own = call_locations(snapshot, query, source, function, function.calls);
        lemma_call_locations(snapshot, query, source, function, function.calls);
        match reference_locations(snapshot, query, entries, n) {
            Some(list) => {
                let searched = is_searched(snapshot, query, entries, n - 1);
                assert forall|i: int, j: int, location: LocationView|
                    0 <= i < n && #[trigger] is_found_at(
                        snapshot,
                        query,
                        i,
                        j,
                        location,
                    ) implies list.contains(location) by {
                    if i < n - 1 {
                        assert(before->0.contains(location));
                        let k = choose|k: int|
                            0 <= k < before->0.len() && before->0[k] == location;
                        assert(list[k] == location);
                    } else {
                        assert(call_stands_at(source, function.calls[j], location));
                        assert(own->0.contains(location));
                        let k = choose|k: int| 0 <= k < own->0.len() && own->0[k] == location;
                        assert(list[before->0.len() + k] == location);
                    }
                }
                assert forall|location: LocationView| #[trigger]
                    list.contains(location) implies exists|i: int, j: int|
                    0 <= i < n && #[trigger] is_found_at(snapshot, query, i, j, location) by {
                    let k = choose|k: int| 0 <= k < list.len() && list[k] == location;
                    if k < before->0.len() {
                        assert(before->0[k] == location);
                        assert(before->0.contains(location));
                        let (i, j) = choose|i: int, j: int|
                            0 <= i < n - 1 && #[trigger] is_found_at(
                                snapshot,
                                query,
                                i,
                                j,
                                location,
                            );
                        assert(is_found_at(snapshot, query, i, j, location));
                    } else {
                        assert(own->0[k - before->0.len()] == location);
                        assert(own->0.contains(location));
                        let j = choose|j: int|
                            0 <= j < function.calls.len() && is_wanted(
                                snapshot,
                                query,
                                function.span,
                                function.calls[j],
                            ) && #[trigger] call_stands_at(source, function.calls[j], location);
                        assert(is_found_at(snapshot, query, n - 1, j, location));
                    }
                }
            },
            None => {
                if before is None {
                    let (i, j) = choose|i: int, j: int|
                        0 <= i < n - 1 && #[trigger] has_no_place(snapshot, query, i, j);
                    assert(has_no_place(snapshot, query, i, j));
                } else {
                    let j = choose|j: int|
                        0 <= j < function.calls.len() && is_wanted(
                            snapshot,
                            query,
                            function.span,
                            #[trigger] function.calls[j],
                        ) && forall|location: LocationView|
                            !#[trigger] call_stands_at(source, function.calls[j], location);
                    assert(has_no_place(snapshot, query, n - 1, j));
                }
            },
        }
    }
}

/// Whether the call at an index is looked for, but its name has no place in its source.
pub open spec fn has_no_place(snapshot: SnapshotView, query: QueryView, i: int, j: int) -> bool {
    let function = snapshot.functions[i].function;
    &&& is_looked_through(snapshot, query, i)
    &&& 0 <= j < function.calls.len()
    &&& is_wanted(snapshot, query, function.span, function.calls[j])
    &&& forall|location: LocationView|
        !#[trigger] call_stands_at(
            snapshot.sources[function.span.file_id as nat],
            function.calls[j],
            location,
        )
}

/// The references of an analysis are exactly the names of the calls that are looked for, and it
/// tells them unless one of them has no place.
pub proof fn law_all_references_are_told(
    snapshot: SnapshotView,
    query: QueryView,
    i: int,
    j: int,
    location: LocationView,
)
    ensures
        all_locations(snapshot, query) matches Some(list) && is_found_at(
            snapshot,
            query,
            i,
            j,
            location,
        ) ==> all_locations(snapshot, query)->0.contains(location),
        all_locations(snapshot, query) matches Some(list) ==> (list.contains(location)
            ==> exists|k: int, l: int| #[trigger] is_found_at(snapshot, query, k, l, location)),
        (forall|k: int, l: int| !#[trigger] has_no_place(snapshot, query, k, l)) ==> all_locations(
            snapshot,
            query,
        ) is Some,
{
    lemma_reference_locations(snapshot, query, snapshot.functions.len() as int);
}

/// The references to a function over several analyses are those of each analysis that tells all of
/// its own.
pub proof fn law_references_of_every_analysis_count(
    analyses: Seq<(Seq<char>, SnapshotView)>,
    target: IdentityView,
    a: int,
    i: int,
    j: int,
    location: LocationView,
)
    ensures
        0 <= a < analyses.len() && is_found_at(
            analyses[a].1,
            QueryView::To(target),
            i,
            j,
            location,
        ) && (forall|k: int, l: int|
            !#[trigger] has_no_place(analyses[a].1, QueryView::To(target), k, l))
            ==> references_found(analyses, target).contains(location),
        references_found(analyses, target).contains(location) ==> exists|b: int, k: int, l: int|
            0 <= b < analyses.len() && #[trigger] is_found_at(
                analyses[b].1,
                QueryView::To(target),
                k,
                l,
                location,
            ),
{
    let query = QueryView::To(target);
    if 0 <= a < analyses.len() {
        law_all_references_are_told(analyses[a].1, query, i, j, location);
        assert(analyses[a] == analyses[a]);
    }
    if references_found(analyses, target).contains(location) {
        let b = choose|b: int|
            0 <= b < analyses.len() && crate::workspace::references::finds(
                (#[trigger] analyses[b]).1,
                target,
                location,
            );
        law_all_references_are_told(analyses[b].1, query, i, j, location);
        let (k, l) = choose|k: int, l: int|
            #[trigger] is_found_at(analyses[b].1, query, k, l, location);
        assert(is_found_at(analyses[b].1, query, k, l, location));
    }
}

} // verus!
