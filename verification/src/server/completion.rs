//! What a completion request asks for.

use vstd::prelude::*;

use crate::analysis::{AnalysisSnapshot, SnapshotView};
use crate::chars::{byte_len, same, to_chars, to_text, utf8_len};
use crate::completion::imports::context::{
    context_at, ContextView, ImportCompletionContext,
};
use crate::protocol::{opt_str, Position};
use crate::rope::{byte_slice, rope_byte_slice};
use crate::split::{find_last, last_index, lemma_last_index};
use crate::text::{offset_of_position, position_to_offset};

verus! {

/// What a completion request asks for.
#[derive(Debug)]
pub enum CompletionPlan {
    /// Nothing.
    Nothing,
    /// What an unfinished import can go on with.
    Import { context: ImportCompletionContext, source: String },
    /// What can be called behind the beginning of a line.
    Callable { line: String },
}

/// What a [`CompletionPlan`] says.
#[verifier::ext_equal]
pub enum PlanView {
    Nothing,
    Import { context: ContextView, source: Seq<char> },
    Callable { line: Seq<char> },
}

impl View for CompletionPlan {
    type V = PlanView;

    open spec fn view(&self) -> PlanView {
        match self {
            CompletionPlan::Nothing => PlanView::Nothing,
            CompletionPlan::Import { context, source } => PlanView::Import {
                context: context@,
                source: source@,
            },
            CompletionPlan::Callable { line } => PlanView::Callable { line: line@ },
        }
    }
}

/// Whether a character triggers a completion for imports alone.
pub open spec fn is_import_trigger(trigger: Option<Seq<char>>) -> bool {
    match trigger {
        Some(text) => text == " "@ || text == "{"@ || text == ","@,
        None => false,
    }
}

/// The last line of a text.
pub open spec fn last_line(text: Seq<char>) -> Seq<char> {
    text.skip(last_index(text, '\n') + 1)
}

/// What is asked for behind a text. An unfinished import is not completed where imports are not
/// enabled, and the characters that trigger a completion for imports trigger no other.
pub open spec fn plan_behind(
    text: Seq<char>,
    trigger: Option<Seq<char>>,
    imports: bool,
) -> PlanView {
    match context_at(text, utf8_len(text)) {
        Some(context) => if imports {
            PlanView::Import { context, source: text }
        } else {
            PlanView::Nothing
        },
        None => if is_import_trigger(trigger) {
            PlanView::Nothing
        } else {
            PlanView::Callable { line: last_line(text) }
        },
    }
}

/// An unfinished import is completed only where imports are enabled, and never with what can be
/// called. The characters that trigger a completion for imports open no other list.
pub proof fn law_imports_are_completed_apart(text: Seq<char>, trigger: Option<Seq<char>>)
    ensures
        plan_behind(text, trigger, false) !is Import,
        context_at(text, utf8_len(text)) is Some ==> plan_behind(text, trigger, true) is Import
            && plan_behind(text, trigger, false) is Nothing,
        forall|imports: bool|
            is_import_trigger(trigger) ==> #[trigger] plan_behind(text, trigger, imports)
                !is Callable,
{
}

/// What is asked for at a position of a document.
pub open spec fn plan_at(
    snapshot: SnapshotView,
    position: Position,
    trigger: Option<Seq<char>>,
    imports: bool,
) -> PlanView {
    match offset_of_position(snapshot.text, position) {
        None => PlanView::Nothing,
        Some(offset) => match byte_slice(snapshot.text, 0, offset) {
            None => PlanView::Nothing,
            Some(before) => plan_behind(before, trigger, imports),
        },
    }
}

/// What a completion request asks for behind a text.
pub fn plan_text(text: String, trigger: Option<&str>, imports: bool) -> (r: CompletionPlan)
    ensures
        r@ == plan_behind(text@, opt_str(trigger), imports),
        r matches CompletionPlan::Import { context, .. } ==> context.well_formed(),
{
    if let Some(context) = ImportCompletionContext::at(text.as_str(), byte_len(text.as_str())) {
        return if imports {
            CompletionPlan::Import { context, source: text }
        } else {
            CompletionPlan::Nothing
        };
    }
    if let Some(character) = trigger {
        if same(character, " ") || same(character, "{") || same(character, ",") {
            return CompletionPlan::Nothing;
        }
    }
    let chars: Vec<char> = to_chars(text.as_str());
    let length: usize = chars.len();
    proof {
        lemma_last_index(text@, '\n');
    }
    let start: usize = match find_last(chars.as_slice(), '\n') {
        Some(at) => at + 1,
        None => 0,
    };
    let line: &[char] = vstd::slice::slice_subrange(chars.as_slice(), start, length);
    assert(line@ =~= last_line(text@));
    CompletionPlan::Callable { line: to_text(line) }
}

/// What a completion request asks for.
pub fn plan(
    snapshot: &AnalysisSnapshot,
    position: Position,
    trigger: Option<&str>,
    imports: bool,
) -> (r: CompletionPlan)
    ensures
        r@ == plan_at(snapshot@, position, opt_str(trigger), imports),
        r matches CompletionPlan::Import { context, .. } ==> context.well_formed(),
{
    match position_to_offset(position, &snapshot.text) {
        Err(_) => CompletionPlan::Nothing,
        Ok(offset) => match rope_byte_slice(&snapshot.text, 0, offset) {
            Some(before) => plan_text(before, trigger, imports),
            None => CompletionPlan::Nothing,
        },
    }
}

} // verus!
