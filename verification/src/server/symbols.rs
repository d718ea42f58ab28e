//! The functions of a document as an outline.

use vstd::prelude::*;

use crate::analysis::sources::NamedView;
use crate::analysis::{AnalysisSnapshot, SnapshotView};
use crate::completion::types::{function_template, function_to_template};
use crate::navigation::{lies_in, name_range_of};
use crate::protocol::{position_le, Range};
use crate::syntax::{Function, FunctionView};
use crate::text::{position_of_offset, span_to_positions};

verus! {

/// A function of a document.
#[derive(Debug)]
pub struct DocumentSymbol {
    pub name: String,
    pub detail: String,
    /// The whole function.
    pub range: Range,
    /// Its name.
    pub selection_range: Range,
}

/// What a [`DocumentSymbol`] says.
#[verifier::ext_equal]
pub struct SymbolView {
    pub name: Seq<char>,
    pub detail: Seq<char>,
    pub range: Range,
    pub selection_range: Range,
}

impl View for DocumentSymbol {
    type V = SymbolView;

    open spec fn view(&self) -> SymbolView {
        SymbolView {
            name: self.name@,
            detail: self.detail@,
            range: self.range,
            selection_range: self.selection_range,
        }
    }
}

/// What a list of symbols says.
pub open spec fn symbol_views(list: Seq<DocumentSymbol>) -> Seq<SymbolView> {
    Seq::new(list.len(), |i: int| list[i]@)
}

/// A function that stands in the root as a symbol, where it and its name are found.
pub open spec fn symbol_of(snapshot: SnapshotView, function: FunctionView) -> Option<SymbolView> {
    if function.span.file_id != 0 {
        None
    } else {
        match (
            position_of_offset(snapshot.text, function.span.start as nat),
            position_of_offset(snapshot.text, function.span.end as nat),
            name_range_of(snapshot, function),
        ) {
            (Some(start), Some(end), Ok(selection_range)) => Some(
                SymbolView {
                    name: function.name,
                    detail: function_template(function, Seq::empty()).signature(),
                    range: Range { start, end },
                    selection_range,
                },
            ),
            _ => None,
        }
    }
}

/// Some functions as symbols.
pub open spec fn symbols_of(snapshot: SnapshotView, entries: Seq<NamedView>) -> Seq<SymbolView>
    decreases entries.len(),
{
    if entries.len() == 0 {
        Seq::empty()
    } else {
        let before = symbols_of(snapshot, entries.drop_last());
        match symbol_of(snapshot, entries.last().function) {
            Some(symbol) => before.push(symbol),
            None => before,
        }
    }
}

/// Whether the name of a symbol lies inside of it.
pub open spec fn is_nested(symbol: SymbolView) -> bool {
    position_le(symbol.range.start, symbol.selection_range.start) && position_le(
        symbol.selection_range.start,
        symbol.selection_range.end,
    ) && position_le(symbol.selection_range.end, symbol.range.end)
}

/// A function as a symbol.
fn symbol_for(snapshot: &AnalysisSnapshot, function: &Function) -> (r: Option<DocumentSymbol>)
    ensures
        match r {
            Some(symbol) => symbol_of(snapshot@, function@) == Some(symbol@) && is_nested(symbol@),
            None => symbol_of(snapshot@, function@) is None,
        },
{
    if function.span.file_id != 0 {
        return None;
    }
    let range: Range = match span_to_positions(&function.span, &snapshot.text) {
        Ok((start, end)) => Range::new(start, end),
        Err(_) => return None,
    };
    let selection_range: Range = match snapshot.find_function_name_range(function) {
        Ok(range) => range,
        Err(_) => return None,
    };
    assert(lies_in(snapshot@, function@, selection_range));
    let empty: String = String::new();
    let symbol = DocumentSymbol {
        name: function.name.clone(),
        detail: function_to_template(function, empty.as_str()).get_signature(),
        range,
        selection_range,
    };
    Some(symbol)
}

/// The functions of a document. The name of each lies inside of it.
pub fn document_symbols(snapshot: &AnalysisSnapshot) -> (r: Vec<DocumentSymbol>)
    ensures
        symbol_views(r@) == symbols_of(snapshot@, snapshot@.functions),
        forall|i: int| 0 <= i < r@.len() ==> is_nested((#[trigger] r@[i])@),
{
    let ghost entries = snapshot@.functions;
    let mut r: Vec<DocumentSymbol> = Vec::new();
    let mut i: usize = 0;
    assert(symbol_views(r@) =~= Seq::<SymbolView>::empty());
    while i < snapshot.functions.len()
        invariant
            i <= entries.len(),
            entries == snapshot@.functions,
            symbol_views(r@) == symbols_of(snapshot@, entries.take(i as int)),
            forall|k: int| 0 <= k < r@.len() ==> is_nested((#[trigger] r@[k])@),
        decreases entries.len() - i,
    {
        assert(entries.take(i + 1).drop_last() == entries.take(i as int));
        assert(entries.take(i + 1).last() == entries[i as int]);
        if let Some(symbol) = symbol_for(snapshot, snapshot.functions.function_at(i)) {
            let ghost before = symbol_views(r@);
            let ghost view = symbol@;
            r.push(symbol);
            assert(symbol_views(r@) =~= before.push(view));
        }
        i = i + 1;
    }
    assert(entries.take(i as int) == entries);
    r
}

} // verus!
