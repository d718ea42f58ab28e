//! What the cursor stands on: a call, an imported name or the name of a function.

use vstd::prelude::*;

use crate::analysis::sources::{function_of, NamedView};
use crate::analysis::{AnalysisSnapshot, SnapshotView};
use crate::error::{conversion_failed, LspError};
use crate::navigation::references::{
    all_locations, identity_of, location_of, location_views, FunctionIdentity, IdentityView,
    QueryView,
};
use crate::navigation::{imported_function, name_range_of, says};
use crate::protocol::{position_le, Location, LocationView, Position, Range};
use crate::syntax::{
    call_name_span, call_views, get_call_span, Call, CallKind, CallView, Function, FunctionView,
};
use crate::text::{
    encloses, offset_of_position, position_failure, position_to_span, span_contains,
    span_to_positions, Span,
};

verus! {

/// The first visible function around a span.
pub open spec fn function_around(entries: Seq<NamedView>, span: Span) -> Option<FunctionView>
    decreases entries.len(),
{
    if entries.len() == 0 {
        None
    } else if encloses(entries[0].function.span, span) {
        Some(entries[0].function)
    } else {
        function_around(entries.drop_first(), span)
    }
}

/// The last call whose name is around a span. A call inside of another comes later.
pub open spec fn last_call_around(calls: Seq<CallView>, span: Span) -> Option<CallView>
    decreases calls.len(),
{
    if calls.len() == 0 {
        None
    } else if encloses(call_name_span(calls.last()), span) {
        Some(calls.last())
    } else {
        last_call_around(calls.drop_last(), span)
    }
}

/// The call of the root whose name is around a span.
pub open spec fn related_call(snapshot: SnapshotView, span: Span) -> Option<CallView> {
    if span.file_id != 0 {
        None
    } else {
        match function_around(snapshot.functions, span) {
            Some(function) => last_call_around(function.calls, span),
            None => None,
        }
    }
}

/// The empty span at an offset of the root.
pub open spec fn cursor(offset: nat) -> Span {
    Span { file_id: 0, start: offset as usize, end: offset as usize }
}

/// Where a function is defined, if its source is known.
pub open spec fn function_location(snapshot: SnapshotView, function: FunctionView) -> Result<
    Option<LocationView>,
    Option<Seq<char>>,
> {
    let file_id = function.span.file_id as nat;
    if snapshot.sources.dom().contains(file_id) {
        match location_of(snapshot.sources[file_id], function.span) {
            Some(location) => Ok(Some(location)),
            None => Err(None),
        }
    } else {
        Ok(None)
    }
}

/// Where the thing at an offset of the root is defined: an imported name and a call lead to their
/// function, and the name of a function leads to itself.
pub open spec fn definition_of(
    snapshot: SnapshotView,
    uri: Seq<char>,
    position: Position,
    offset: nat,
) -> Result<Option<LocationView>, Option<Seq<char>>> {
    match imported_function(snapshot, cursor(offset)) {
        Some(function) => function_location(snapshot, function),
        None => match related_call(snapshot, cursor(offset)) {
            Some(call) => if call.name.kind == CallKind::Custom {
                match function_of(snapshot.functions, call.name.function) {
                    Some(function) => function_location(snapshot, function),
                    None => Ok(None),
                }
            } else {
                Ok(None)
            },
            None => match function_around(snapshot.functions, cursor(offset)) {
                Some(function) => match name_range_of(snapshot, function) {
                    Ok(range) => if position_le(range.start, position) && position_le(
                        position,
                        range.end,
                    ) {
                        Ok(Some(LocationView { uri, range }))
                    } else {
                        Ok(None)
                    },
                    Err(failure) => Err(failure),
                },
                None => Ok(None),
            },
        },
    }
}

/// What an optional location says.
pub open spec fn opt_location(location: Option<Location>) -> Option<LocationView> {
    match location {
        Some(location) => Some(location@),
        None => None,
    }
}

/// What the references are asked of.
#[derive(Debug)]
pub enum Referenced {
    /// A call that is no call of a function: these are its like in the same analysis.
    Calls(Vec<Location>),
    /// A function, whose calls every analysis is asked for.
    Function(FunctionIdentity),
}

/// What a [`Referenced`] says.
pub enum ReferencedView {
    Calls(Seq<LocationView>),
    Function(IdentityView),
}

impl View for Referenced {
    type V = ReferencedView;

    open spec fn view(&self) -> ReferencedView {
        match self {
            Referenced::Calls(locations) => ReferencedView::Calls(location_views(locations@)),
            Referenced::Function(identity) => ReferencedView::Function(identity@),
        }
    }
}

/// What an optional [`Referenced`] says.
pub open spec fn opt_referenced(referenced: Option<Referenced>) -> Option<ReferencedView> {
    match referenced {
        Some(referenced) => Some(referenced@),
        None => None,
    }
}

/// A function as a thing that the references are asked of, if its source is known.
pub open spec fn referenced_function(
    snapshot: SnapshotView,
    function: FunctionView,
) -> Option<ReferencedView> {
    match identity_of(snapshot, function) {
        Some(identity) => Some(ReferencedView::Function(identity)),
        None => None,
    }
}

/// What the references are asked of at an offset of the root.
pub open spec fn referenced_at(snapshot: SnapshotView, position: Position, offset: nat) -> Result<
    Option<ReferencedView>,
    Option<Seq<char>>,
> {
    match related_call(snapshot, cursor(offset)) {
        Some(call) => if call.name.kind == CallKind::Custom {
            match function_of(snapshot.functions, call.name.function) {
                Some(function) => Ok(referenced_function(snapshot, function)),
                None => Ok(None),
            }
        } else {
            match all_locations(snapshot, QueryView::Named(call.name)) {
                Some(locations) => Ok(Some(ReferencedView::Calls(locations))),
                None => Err(None),
            }
        },
        None => match function_around(snapshot.functions, cursor(offset)) {
            Some(function) => match name_range_of(snapshot, function) {
                Ok(range) => if position_le(range.start, position) && position_le(
                    position,
                    range.end,
                ) {
                    Ok(referenced_function(snapshot, function))
                } else {
                    Ok(None)
                },
                Err(failure) => Err(failure),
            },
            None => Ok(None),
        },
    }
}

/// Where references to a function are asked for, the definition is that of the same function: the
/// whole of it behind a call, and its name on the name itself.
pub proof fn law_definition_and_references_agree(
    snapshot: SnapshotView,
    uri: Seq<char>,
    position: Position,
    offset: nat,
)
    requires
        imported_function(snapshot, cursor(offset)) is None,
    ensures
        referenced_at(snapshot, position, offset) matches Ok(Some(ReferencedView::Function(identity)))
            ==> exists|function: FunctionView| #[trigger]
            identity_of(snapshot, function) == Some(identity) && (definition_of(
                snapshot,
                uri,
                position,
                offset,
            ) == function_location(snapshot, function) || (name_range_of(snapshot, function) matches Ok(
                range,
            ) && definition_of(snapshot, uri, position, offset) == Ok::<
                Option<LocationView>,
                Option<Seq<char>>,
            >(Some(LocationView { uri, range })))),
{
    let span = cursor(offset);
    match related_call(snapshot, span) {
        Some(call) => {
            if let Some(function) = function_of(snapshot.functions, call.name.function) {
                assert(identity_of(snapshot, function) == identity_of(snapshot, function));
            }
        },
        None => {
            if let Some(function) = function_around(snapshot.functions, span) {
                assert(identity_of(snapshot, function) == identity_of(snapshot, function));
            }
        },
    }
}

/// Finds the last call whose name is around a span.
fn find_last_call<'a>(calls: &'a Vec<Call>, span: &Span) -> (r: Option<&'a Call>)
    ensures
        match r {
            Some(call) => last_call_around(call_views(calls@), *span) == Some(call@),
            None => last_call_around(call_views(calls@), *span) is None,
        },
{
    let ghost shown = call_views(calls@);
    let mut i: usize = calls.len();
    assert(shown.take(i as int) == shown);
    while i > 0
        invariant
            i <= calls@.len(),
            shown == call_views(calls@),
            last_call_around(shown, *span) == last_call_around(shown.take(i as int), *span),
        decreases i,
    {
        let call: &Call = &calls[i - 1];
        assert(shown.take(i as int).last() == call@);
        assert(shown.take(i as int).drop_last() == shown.take(i - 1));
        if span_contains(&get_call_span(call), span) {
            return Some(call);
        }
        i = i - 1;
    }
    None
}

impl AnalysisSnapshot {
    /// The first visible function around a span.
    fn find_function_around(&self, span: &Span) -> (r: Option<&Function>)
        ensures
            match r {
                Some(function) => function_around(self@.functions, *span) == Some(function@),
                None => function_around(self@.functions, *span) is None,
            },
    {
        let ghost entries = self@.functions;
        let mut i: usize = 0;
        assert(entries.skip(0) == entries);
        while i < self.functions.len()
            invariant
                i <= entries.len(),
                entries == self@.functions,
                function_around(entries, *span) == function_around(entries.skip(i as int), *span),
            decreases entries.len() - i,
        {
            let function: &Function = self.functions.function_at(i);
            assert(entries.skip(i as int)[0] == entries[i as int]);
            assert(entries.skip(i as int).drop_first() == entries.skip(i + 1));
            if span_contains(&function.span, span) {
                return Some(function);
            }
            i = i + 1;
        }
        None
    }

    /// The smallest call of the root whose name is around a span.
    pub fn find_related_call(&self, span: Span) -> (r: Option<&Call>)
        ensures
            match r {
                Some(call) => related_call(self@, span) == Some(call@),
                None => related_call(self@, span) is None,
            },
    {
        if span.file_id != 0 {
            return None;
        }
        match self.find_function_around(&span) {
            Some(function) => find_last_call(&function.calls, &span),
            None => None,
        }
    }

    /// Where a function is defined, if its source is known.
    fn locate_function(&self, function: &Function) -> (r: Result<Option<Location>, LspError>)
        ensures
            match r {
                Ok(location) => function_location(self@, function@) == Ok::<
                    Option<LocationView>,
                    Option<Seq<char>>,
                >(opt_location(location)),
                Err(error) => match function_location(self@, function@) {
                    Ok(_) => false,
                    Err(failure) => says(error, failure),
                },
            },
    {
        match self.sources.get(function.span.file_id) {
            Some(source) => match span_to_positions(&function.span, &source.text) {
                Ok((start, end)) => Ok(
                    Some(Location::new(source.uri.clone(), Range::new(start, end))),
                ),
                Err(error) => Err(error),
            },
            None => Ok(None),
        }
    }

    /// Where the thing at a position of the root is defined.
    pub fn definition_at(&self, uri: &str, position: Position) -> (r: Result<
        Option<Location>,
        LspError,
    >)
        ensures
            match offset_of_position(self@.text, position) {
                None => match r {
                    Ok(_) => false,
                    Err(error) => conversion_failed(
                        error,
                        position_failure(self@.text, position),
                    ),
                },
                Some(offset) => match r {
                    Ok(location) => definition_of(self@, uri@, position, offset) == Ok::<
                        Option<LocationView>,
                        Option<Seq<char>>,
                    >(opt_location(location)),
                    Err(error) => match definition_of(self@, uri@, position, offset) {
                        Ok(_) => false,
                        Err(failure) => says(error, failure),
                    },
                },
            },
    {
        let span: Span = match position_to_span(position, &self.text) {
            Ok(span) => span,
            Err(error) => return Err(error),
        };
        if let Some(function) = self.find_imported_function(span) {
            return self.locate_function(function);
        }
        match self.find_related_call(span) {
            Some(call) => {
                if call.name.kind != CallKind::Custom {
                    return Ok(None);
                }
                match self.functions.get_func(call.name.function.as_str()) {
                    Some(function) => self.locate_function(function),
                    None => Ok(None),
                }
            },
            None => match self.find_function_around(&span) {
                Some(function) => match self.find_function_name_range(function) {
                    Ok(range) => {
                        if range.start.not_after(&position) && position.not_after(&range.end) {
                            Ok(Some(Location::new(uri.to_owned(), range)))
                        } else {
                            Ok(None)
                        }
                    },
                    Err(error) => Err(error),
                },
                None => Ok(None),
            },
        }
    }

    /// What the references are asked of at a position of the root.
    pub fn referenced_at(&self, position: Position) -> (r: Result<Option<Referenced>, LspError>)
        ensures
            match offset_of_position(self@.text, position) {
                None => match r {
                    Ok(_) => false,
                    Err(error) => conversion_failed(
                        error,
                        position_failure(self@.text, position),
                    ),
                },
                Some(offset) => match r {
                    Ok(referenced) => referenced_at(self@, position, offset) == Ok::<
                        Option<ReferencedView>,
                        Option<Seq<char>>,
                    >(opt_referenced(referenced)),
                    Err(error) => match referenced_at(self@, position, offset) {
                        Ok(_) => false,
                        Err(failure) => says(error, failure),
                    },
                },
            },
    {
        let span: Span = match position_to_span(position, &self.text) {
            Ok(span) => span,
            Err(error) => return Err(error),
        };
        let function: &Function = match self.find_related_call(span) {
            Some(call) => {
                if call.name.kind != CallKind::Custom {
                    return match self.find_all_references(&call.name) {
                        Ok(locations) => Ok(Some(Referenced::Calls(locations))),
                        Err(error) => Err(error),
                    };
                }
                match self.functions.get_func(call.name.function.as_str()) {
                    Some(function) => function,
                    None => return Ok(None),
                }
            },
            None => {
                let function: &Function = match self.find_function_around(&span) {
                    Some(function) => function,
                    None => return Ok(None),
                };
                match self.find_function_name_range(function) {
                    Ok(range) => {
                        if !(range.start.not_after(&position) && position.not_after(&range.end)) {
                            return Ok(None);
                        }
                    },
                    Err(error) => return Err(error),
                }
                function
            },
        };
        match self.function_identity(function) {
            Some(identity) => Ok(Some(Referenced::Function(identity))),
            None => Ok(None),
        }
    }
}

} // verus!
