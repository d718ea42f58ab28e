//! What is shown of the call under the cursor.

use vstd::prelude::*;
use vstd::string::StringExecFns;

use crate::analysis::sources::entry_of;
use crate::analysis::{AnalysisSnapshot, SnapshotView};
use crate::chars::join3;
use crate::completion::jet::{find_jet, jet_named, jet_template, jet_to_template};
use crate::completion::types::{
    function_template, function_to_template, FunctionTemplate, TemplateView,
};
use crate::error::{conversion_failed, LspError};
use crate::navigation::definition::{cursor, related_call};
use crate::protocol::{Position, Range};
use crate::syntax::{call_name_span, get_call_span, Call, CallKind, CallView};
use crate::text::{
    offset_failure, offset_of_position, position_failure, position_of_offset, position_to_span,
    span_to_positions, Span,
};
use crate::utils::{builtin_template, BuiltinTemplates};

verus! {

/// What is shown of a call, in Markdown, and the range of its name.
#[derive(Debug)]
pub struct Hover {
    pub contents: String,
    pub range: Range,
}

/// What a [`Hover`] says.
#[verifier::ext_equal]
pub struct HoverView {
    pub contents: Seq<char>,
    pub range: Range,
}

impl View for Hover {
    type V = HoverView;

    open spec fn view(&self) -> HoverView {
        HoverView { contents: self.contents@, range: self.range }
    }
}

/// What an optional [`Hover`] says.
pub open spec fn opt_hover(hover: Option<Hover>) -> Option<HoverView> {
    match hover {
        Some(hover) => Some(hover@),
        None => None,
    }
}

/// A callable in Markdown: a heading, its declaration as code, a line, and its description.
pub open spec fn described(
    heading: Seq<char>,
    template: TemplateView,
    separator: Seq<char>,
) -> Seq<char> {
    heading + "```simplicityhl\n"@ + template.declaration() + separator + template.description
}

/// What is shown of a call of a kind, which stands for a callable.
pub open spec fn kind_description(kind: CallKind, template: TemplateView) -> Seq<char> {
    match kind {
        CallKind::Jet => described("Jet function\n"@, template, "\n```\n---\n\n"@),
        CallKind::Custom => described(Seq::empty(), template, "\n```\n---\n"@),
        _ => described("Built-in function\n"@, template, "\n```\n---\n"@),
    }
}

/// The callable that a call stands for: a jet, a visible function or a built-in one.
pub open spec fn call_template(
    snapshot: SnapshotView,
    builtins: Seq<(CallKind, TemplateView)>,
    call: CallView,
) -> Option<TemplateView> {
    match call.name.kind {
        CallKind::Jet => match jet_named(call.name.function) {
            Some(jet) => Some(jet_template(jet)),
            None => None,
        },
        CallKind::Custom => match entry_of(snapshot.functions, call.name.function) {
            Some(entry) => Some(function_template(entry.function, entry.documentation)),
            None => None,
        },
        kind => builtin_template(builtins, kind),
    }
}

/// What is shown of a call.
pub open spec fn call_description(
    snapshot: SnapshotView,
    builtins: Seq<(CallKind, TemplateView)>,
    call: CallView,
) -> Option<Seq<char>> {
    match call_template(snapshot, builtins, call) {
        Some(template) => Some(kind_description(call.name.kind, template)),
        None => None,
    }
}

/// What is shown at an offset of a document, where the call there has a range.
pub open spec fn hover_of(
    snapshot: SnapshotView,
    builtins: Seq<(CallKind, TemplateView)>,
    offset: nat,
) -> Option<Option<HoverView>> {
    match related_call(snapshot, cursor(offset)) {
        None => Some(None),
        Some(call) => {
            let span = call_name_span(call);
            match (
                position_of_offset(snapshot.text, span.start as nat),
                position_of_offset(snapshot.text, span.end as nat),
            ) {
                (Some(start), Some(end)) => match call_description(snapshot, builtins, call) {
                    Some(contents) => Some(
                        Some(HoverView { contents, range: Range { start, end } }),
                    ),
                    None => Some(None),
                },
                _ => None,
            }
        },
    }
}

/// Describes a callable in Markdown.
fn describe(heading: &str, template: &FunctionTemplate, separator: &str) -> (r: String)
    ensures
        r@ == described(heading@, template@, separator@),
{
    let mut text: String = join3(
        heading,
        "```simplicityhl\n",
        template.get_declaration().as_str(),
    );
    text.append(separator);
    text.append(template.description.as_str());
    text
}

/// Describes a call of a kind, which stands for a callable.
pub fn describe_kind(kind: CallKind, template: &FunctionTemplate) -> (r: String)
    ensures
        r@ == kind_description(kind, template@),
{
    match kind {
        CallKind::Jet => describe("Jet function\n", template, "\n```\n---\n\n"),
        CallKind::Custom => {
            let heading: String = String::new();
            describe(heading.as_str(), template, "\n```\n---\n")
        },
        _ => describe("Built-in function\n", template, "\n```\n---\n"),
    }
}

/// Describes a call.
fn describe_call(snapshot: &AnalysisSnapshot, builtins: &BuiltinTemplates, call: &Call) -> (r:
    Option<String>)
    ensures
        match r {
            Some(text) => call_description(snapshot@, builtins@, call@) == Some(text@),
            None => call_description(snapshot@, builtins@, call@) is None,
        },
{
    match call.name.kind {
        CallKind::Jet => match find_jet(call.name.function.as_str()) {
            Some(jet) => Some(describe_kind(CallKind::Jet, &jet_to_template(jet))),
            None => None,
        },
        CallKind::Custom => match snapshot.functions.get(call.name.function.as_str()) {
            Some((function, documentation)) => Some(
                describe_kind(CallKind::Custom, &function_to_template(function, documentation)),
            ),
            None => None,
        },
        kind => match builtins.match_callname(kind) {
            Some(template) => Some(describe_kind(kind, template)),
            None => None,
        },
    }
}

/// What is shown at a position of a document.
pub fn hover(snapshot: &AnalysisSnapshot, builtins: &BuiltinTemplates, position: Position) -> (r:
    Result<Option<Hover>, LspError>)
    ensures
        match offset_of_position(snapshot@.text, position) {
            None => r matches Err(error) && conversion_failed(
                error,
                position_failure(snapshot@.text, position),
            ),
            Some(offset) => match r {
                Ok(hover) => hover_of(snapshot@, builtins@, offset) == Some(opt_hover(hover)),
                Err(error) => conversion_failed(error, offset_failure()) && hover_of(
                    snapshot@,
                    builtins@,
                    offset,
                ) is None,
            },
        },
{
    let span: Span = match position_to_span(position, &snapshot.text) {
        Ok(span) => span,
        Err(error) => return Err(error),
    };
    let call: &Call = match snapshot.find_related_call(span) {
        Some(call) => call,
        None => return Ok(None),
    };
    let call_span: Span = get_call_span(call);
    let range: Range = match span_to_positions(&call_span, &snapshot.text) {
        Ok((start, end)) => Range::new(start, end),
        Err(error) => return Err(error),
    };
    match describe_call(snapshot, builtins, call) {
        Some(contents) => Ok(Some(Hover { contents, range })),
        None => Ok(None),
    }
}

} // verus!
