//! The calls of a function, in every source that an analysis knows.

use vstd::prelude::*;

use crate::analysis::sources::{NamedView, SourceDocument, SourceView};
use crate::analysis::{called_function, AnalysisSnapshot, SnapshotView};
use crate::error::{conversion_failed, LspError};
use crate::protocol::{Location, LocationView, Range};
use crate::syntax::{
    call_name_span, call_views, get_call_span, Call, CallKind, CallName, CallNameView, CallView,
    Function, FunctionView,
};
use crate::text::{offset_failure, position_of_offset, span_to_positions, Span};

verus! {

/// A function definition by where it stands, the same in every analysis that knows it.
#[derive(Debug)]
pub struct FunctionIdentity {
    pub uri: String,
    pub start: usize,
    pub end: usize,
}

/// What a [`FunctionIdentity`] says.
pub struct IdentityView {
    pub uri: Seq<char>,
    pub start: usize,
    pub end: usize,
}

impl View for FunctionIdentity {
    type V = IdentityView;

    open spec fn view(&self) -> IdentityView {
        IdentityView { uri: self.uri@, start: self.start, end: self.end }
    }
}

impl FunctionIdentity {
    /// Whether two identities are the same.
    pub fn same(&self, other: &FunctionIdentity) -> (r: bool)
        ensures
            r == (self@ == other@),
    {
        self.start == other.start && self.end == other.end && crate::chars::same(
            self.uri.as_str(),
            other.uri.as_str(),
        )
    }
}

/// The identity of a function, where its source is known.
pub open spec fn identity_of(snapshot: SnapshotView, function: FunctionView) -> Option<IdentityView> {
    let file_id = function.span.file_id as nat;
    if snapshot.sources.dom().contains(file_id) {
        Some(
            IdentityView {
                uri: snapshot.sources[file_id].uri,
                start: function.span.start,
                end: function.span.end,
            },
        )
    } else {
        None
    }
}

/// What an optional identity says.
pub open spec fn opt_identity(identity: Option<FunctionIdentity>) -> Option<IdentityView> {
    match identity {
        Some(identity) => Some(identity@),
        None => None,
    }
}

/// Which calls are looked for.
pub enum ReferenceQuery<'a> {
    /// Those with a name.
    Named(&'a CallName),
    /// Those of a function, by whatever name it is known where the call stands.
    To(&'a FunctionIdentity),
}

/// What a [`ReferenceQuery`] says.
pub enum QueryView {
    Named(CallNameView),
    To(IdentityView),
}

impl<'a> View for ReferenceQuery<'a> {
    type V = QueryView;

    open spec fn view(&self) -> QueryView {
        match self {
            ReferenceQuery::Named(name) => QueryView::Named(name@),
            ReferenceQuery::To(target) => QueryView::To(target@),
        }
    }
}

/// Whether a call in the body of a function is one that is looked for.
pub open spec fn matches_query(
    snapshot: SnapshotView,
    query: QueryView,
    owner: FunctionView,
    call: CallView,
) -> bool {
    match query {
        QueryView::Named(name) => call.name.kind == name.kind && call.name.text == name.text,
        QueryView::To(target) => call.name.kind == CallKind::Custom && match called_function(
            snapshot,
            owner.span,
            call.name.function,
        ) {
            Some(function) => identity_of(snapshot, function) == Some(target),
            None => false,
        },
    }
}

/// A span as a location in its source.
pub open spec fn location_of(source: SourceView, span: Span) -> Option<LocationView> {
    match (
        position_of_offset(source.text, span.start as nat),
        position_of_offset(source.text, span.end as nat),
    ) {
        (Some(start), Some(end)) => Some(
            LocationView { uri: source.uri, range: Range { start, end } },
        ),
        _ => None,
    }
}

/// The locations of the calls of a function's body that are looked for, where all of them have one.
pub open spec fn call_locations(
    snapshot: SnapshotView,
    query: QueryView,
    source: SourceView,
    owner: FunctionView,
    calls: Seq<CallView>,
) -> Option<Seq<LocationView>>
    decreases calls.len(),
{
    if calls.len() == 0 {
        Some(Seq::empty())
    } else {
        let before = call_locations(snapshot, query, source, owner, calls.drop_last());
        let call = calls.last();
        if matches_query(snapshot, query, owner, call) {
            match (before, location_of(source, call_name_span(call))) {
                (Some(before), Some(location)) => Some(before.push(location)),
                _ => None,
            }
        } else {
            before
        }
    }
}

/// Whether the calls in an entry's function are looked at: its source is known and, where a function
/// is looked for, no earlier entry is the same function.
pub open spec fn is_searched(
    snapshot: SnapshotView,
    query: QueryView,
    entries: Seq<NamedView>,
    i: int,
) -> bool {
    &&& identity_of(snapshot, entries[i].function) is Some
    &&& query is To ==> forall|k: int|
        0 <= k < i ==> identity_of(snapshot, (#[trigger] entries[k]).function) != identity_of(
            snapshot,
            entries[i].function,
        )
}

/// The locations of the calls that are looked for in the first `n` entries, where all of them have
/// one.
pub open spec fn reference_locations(
    snapshot: SnapshotView,
    query: QueryView,
    entries: Seq<NamedView>,
    n: int,
) -> Option<Seq<LocationView>>
    decreases n,
{
    if n <= 0 {
        Some(Seq::empty())
    } else {
        let before = reference_locations(snapshot, query, entries, n - 1);
        let function = entries[n - 1].function;
        if is_searched(snapshot, query, entries, n - 1) {
            match (
                before,
                call_locations(
                    snapshot,
                    query,
                    snapshot.sources[function.span.file_id as nat],
                    function,
                    function.calls,
                ),
            ) {
                (Some(before), Some(own)) => Some(before + own),
                _ => None,
            }
        } else {
            before
        }
    }
}

/// The locations of the calls that are looked for, in the order of the functions, where all of them
/// have one.
pub open spec fn all_locations(snapshot: SnapshotView, query: QueryView) -> Option<
    Seq<LocationView>,
> {
    reference_locations(snapshot, query, snapshot.functions, snapshot.functions.len() as int)
}

/// What a list of locations says.
pub open spec fn location_views(locations: Seq<Location>) -> Seq<LocationView> {
    Seq::new(locations.len(), |i: int| locations[i]@)
}

impl AnalysisSnapshot {
    /// The identity of a function, where its source is known.
    pub fn function_identity(&self, function: &Function) -> (r: Option<FunctionIdentity>)
        ensures
            opt_identity(r) == identity_of(self@, function@),
    {
        match self.sources.get(function.span.file_id) {
            Some(source) => Some(
                FunctionIdentity {
                    uri: source.uri.clone(),
                    start: function.span.start,
                    end: function.span.end,
                },
            ),
            None => None,
        }
    }

    /// Whether a call in the body of a function is one that is looked for.
    fn includes_call(&self, query: &ReferenceQuery, owner: &Function, call: &Call) -> (r: bool)
        ensures
            r == matches_query(self@, query@, owner@, call@),
    {
        match query {
            ReferenceQuery::Named(name) => call.name.same(name),
            ReferenceQuery::To(target) => {
                if call.name.kind != CallKind::Custom {
                    return false;
                }
                match self.resolve_custom_call(owner, call.name.function.as_str()) {
                    Some(function) => match self.function_identity(function) {
                        Some(identity) => identity.same(target),
                        None => false,
                    },
                    None => false,
                }
            },
        }
    }

    /// Adds the locations of the calls in a function's body that are looked for.
    fn push_call_locations(
        &self,
        query: &ReferenceQuery,
        source: &SourceDocument,
        owner: &Function,
        locations: &mut Vec<Location>,
    ) -> (r: Result<(), LspError>)
        ensures
            match r {
                Ok(_) => match call_locations(
                    self@,
                    query@,
                    source@,
                    owner@,
                    owner@.calls,
                ) {
                    Some(own) => location_views(final(locations)@) == location_views(
                        old(locations)@,
                    ) + own,
                    None => false,
                },
                Err(error) => conversion_failed(error, offset_failure()) && call_locations(
                    self@,
                    query@,
                    source@,
                    owner@,
                    owner@.calls,
                ) is None,
            },
    {
        let ghost before = location_views(locations@);
        let ghost calls = owner@.calls;
        let mut i: usize = 0;
        assert(before + Seq::<LocationView>::empty() =~= before);
        while i < owner.calls.len()
            invariant
                i <= owner.calls@.len(),
                calls == owner@.calls,
                calls == call_views(owner.calls@),
                match call_locations(self@, query@, source@, owner@, calls.take(i as int)) {
                    Some(own) => location_views(locations@) == before + own,
                    None => false,
                },
            decreases owner.calls@.len() - i,
        {
            let call: &Call = &owner.calls[i];
            proof {
                assert(calls.take(i + 1).drop_last() == calls.take(i as int));
                assert(calls.take(i + 1).last() == call@);
            }
            if self.includes_call(query, owner, call) {
                let span: Span = get_call_span(call);
                let ghost so_far = locations@;
                match span_to_positions(&span, &source.text) {
                    Ok((start, end)) => {
                        let location = Location::new(source.uri.clone(), Range::new(start, end));
                        let ghost view = location@;
                        locations.push(location);
                        assert(location_views(locations@) =~= location_views(so_far).push(view));
                        let ghost own = call_locations(
                            self@,
                            query@,
                            source@,
                            owner@,
                            calls.take(i as int),
                        )->0;
                        assert(location_views(locations@) =~= before + own.push(view));
                    },
                    Err(error) => {
                        proof {
                            lemma_calls_fail(
                                self@,
                                query@,
                                source@,
                                owner@,
                                calls,
                                i + 1,
                            );
                        }
                        return Err(error);
                    },
                }
            }
            i = i + 1;
        }
        assert(calls.take(i as int) == calls);
        Ok(())
    }

    /// Whether no earlier entry is the same function as the one at an index.
    fn is_first_of_identity(&self, i: usize, identity: &FunctionIdentity) -> (r: bool)
        requires
            i < self@.functions.len(),
            identity_of(self@, self@.functions[i as int].function) == Some(identity@),
        ensures
            r == forall|k: int|
                0 <= k < i ==> identity_of(
                    self@,
                    (#[trigger] self@.functions[k]).function,
                ) != identity_of(self@, self@.functions[i as int].function),
    {
        let mut k: usize = 0;
        while k < i
            invariant
                k <= i < self@.functions.len(),
                identity_of(self@, self@.functions[i as int].function) == Some(identity@),
                forall|m: int|
                    0 <= m < k ==> identity_of(
                        self@,
                        (#[trigger] self@.functions[m]).function,
                    ) != identity_of(self@, self@.functions[i as int].function),
            decreases i - k,
        {
            if let Some(other) = self.function_identity(self.functions.function_at(k)) {
                if other.same(identity) {
                    assert(identity_of(self@, self@.functions[k as int].function) == Some(
                        identity@,
                    ));
                    return false;
                }
            }
            k = k + 1;
        }
        true
    }

    /// The locations of the calls that are looked for.
    fn reference_locations(&self, query: &ReferenceQuery) -> (r: Result<Vec<Location>, LspError>)
        ensures
            match r {
                Ok(locations) => all_locations(self@, query@) == Some(location_views(locations@)),
                Err(error) => conversion_failed(error, offset_failure()) && all_locations(
                    self@,
                    query@,
                ) is None,
            },
    {
        let ghost entries = self@.functions;
        let mut locations: Vec<Location> = Vec::new();
        let mut i: usize = 0;
        assert(location_views(locations@) =~= Seq::<LocationView>::empty());
        while i < self.functions.len()
            invariant
                i <= entries.len(),
                entries == self@.functions,
                reference_locations(self@, query@, entries, i as int) == Some(
                    location_views(locations@),
                ),
            decreases entries.len() - i,
        {
            let function: &Function = self.functions.function_at(i);
            if let Some(source) = self.sources.get(function.span.file_id) {
                let searched: bool = match query {
                    ReferenceQuery::Named(_) => true,
                    ReferenceQuery::To(_) => match self.function_identity(function) {
                        Some(identity) => self.is_first_of_identity(i, &identity),
                        None => false,
                    },
                };
                assert(searched == is_searched(self@, query@, entries, i as int));
                if searched {
                    match self.push_call_locations(query, source, function, &mut locations) {
                        Ok(_) => {},
                        Err(error) => {
                            proof {
                                lemma_entries_fail(
                                    self@,
                                    query@,
                                    entries,
                                    i + 1,
                                    entries.len() as int,
                                );
                            }
                            return Err(error);
                        },
                    }
                }
            }
            i = i + 1;
        }
        Ok(locations)
    }

    /// The calls with a name.
    pub fn find_all_references(&self, call_name: &CallName) -> (r: Result<Vec<Location>, LspError>)
        ensures
            match r {
                Ok(locations) => all_locations(self@, QueryView::Named(call_name@)) == Some(
                    location_views(locations@),
                ),
                Err(error) => conversion_failed(error, offset_failure()) && all_locations(
                    self@,
                    QueryView::Named(call_name@),
                ) is None,
            },
    {
        self.reference_locations(&ReferenceQuery::Named(call_name))
    }

    /// The calls whose name means a function where they stand.
    pub fn find_references_to(&self, target: &FunctionIdentity) -> (r: Result<
        Vec<Location>,
        LspError,
    >)
        ensures
            match r {
                Ok(locations) => all_locations(self@, QueryView::To(target@)) == Some(
                    location_views(locations@),
                ),
                Err(error) => conversion_failed(error, offset_failure()) && all_locations(
                    self@,
                    QueryView::To(target@),
                ) is None,
            },
    {
        self.reference_locations(&ReferenceQuery::To(target))
    }
}

/// Calls without a location stay so when more calls follow.
proof fn lemma_calls_fail(
    snapshot: SnapshotView,
    query: QueryView,
    source: SourceView,
    owner: FunctionView,
    calls: Seq<CallView>,
    n: int,
)
    requires
        0 <= n <= calls.len(),
        call_locations(snapshot, query, source, owner, calls.take(n)) is None,
    ensures
        call_locations(snapshot, query, source, owner, calls) is None,
    decreases calls.len(),
{
    if n == calls.len() {
        assert(calls.take(n) == calls);
    } else {
        assert(calls.drop_last().take(n) == calls.take(n));
        lemma_calls_fail(snapshot, query, source, owner, calls.drop_last(), n);
    }
}

/// Entries without a location stay so when more entries follow.
proof fn lemma_entries_fail(
    snapshot: SnapshotView,
    query: QueryView,
    entries: Seq<NamedView>,
    n: int,
    m: int,
)
    requires
        0 <= n <= m,
        reference_locations(snapshot, query, entries, n) is None,
    ensures
        reference_locations(snapshot, query, entries, m) is None,
    decreases m - n,
{
    if n < m {
        lemma_entries_fail(snapshot, query, entries, n, m - 1);
    }
}

} // verus!
