//! What can be called where the cursor stands.

use vstd::prelude::*;

use crate::analysis::sources::NamedView;
use crate::analysis::{AnalysisSnapshot, SnapshotView};
use crate::chars::{same_chars, to_chars};
use crate::completion::jet::{get_jets_completions, shows_all_jets, template_views};
use crate::completion::types::{
    function_template, function_to_template, FunctionTemplate, TemplateView,
};
use crate::syntax::{CallKind, Function};
use crate::utils::BuiltinTemplates;

verus! {

/// Whether the name of a jet is about to be written.
pub open spec fn expects_jet(line: Seq<char>) -> bool {
    line.len() >= 5 && line.skip(line.len() - 5) == "jet::"@
}

/// Visible functions as they are shown.
pub open spec fn function_templates(entries: Seq<NamedView>) -> Seq<TemplateView> {
    Seq::new(
        entries.len(),
        |i: int| function_template(entries[i].function, entries[i].documentation),
    )
}

/// Built-in callables as they are shown.
pub open spec fn shown_builtins(builtins: Seq<(CallKind, TemplateView)>) -> Seq<TemplateView> {
    Seq::new(builtins.len(), |i: int| builtins[i].1)
}

/// Whether a list is what can be called behind the beginning of a line: all jets where the name of
/// one is about to be written, and nothing behind any other colon; else the visible functions and
/// the built-in ones.
pub open spec fn is_offered(
    list: Option<Seq<TemplateView>>,
    line: Seq<char>,
    snapshot: SnapshotView,
    builtins: Seq<(CallKind, TemplateView)>,
) -> bool {
    if expects_jet(line) {
        list matches Some(templates) && shows_all_jets(templates)
    } else if line.len() > 0 && line.last() == ':' {
        list is None
    } else {
        list == Some(function_templates(snapshot.functions) + shown_builtins(builtins))
    }
}

/// What an optional list of templates says.
pub open spec fn opt_templates(list: Option<Vec<FunctionTemplate>>) -> Option<Seq<TemplateView>> {
    match list {
        Some(templates) => Some(template_views(templates@)),
        None => None,
    }
}

/// What can be called behind the beginning of a line.
pub fn offered_callables(line: &str, snapshot: &AnalysisSnapshot, builtins: &BuiltinTemplates) -> (r:
    Option<Vec<FunctionTemplate>>)
    ensures
        is_offered(opt_templates(r), line@, snapshot@, builtins@),
{
    let chars: Vec<char> = to_chars(line);
    let length: usize = chars.len();
    if length >= 5 {
        let end: &[char] = vstd::slice::slice_subrange(chars.as_slice(), length - 5, length);
        assert(end@ == line@.skip(length - 5));
        if same_chars(end, to_chars("jet::").as_slice()) {
            return Some(get_jets_completions());
        }
    }
    if length > 0 && chars[length - 1] == ':' {
        return None;
    }
    let ghost own = function_templates(snapshot@.functions);
    let functions: Vec<(&Function, &str)> = snapshot.functions.functions_and_docs();
    let mut r: Vec<FunctionTemplate> = Vec::new();
    let mut i: usize = 0;
    while i < functions.len()
        invariant
            i <= functions@.len(),
            own == function_templates(snapshot@.functions),
            functions@.len() == snapshot@.functions.len(),
            forall|k: int|
                0 <= k < functions@.len() ==> (#[trigger] functions@[k]).0@
                    == snapshot@.functions[k].function && functions@[k].1@
                    == snapshot@.functions[k].documentation,
            template_views(r@) =~= own.take(i as int),
        decreases functions@.len() - i,
    {
        let ghost before = template_views(r@);
        let template: FunctionTemplate = function_to_template(functions[i].0, functions[i].1);
        let ghost view = template@;
        r.push(template);
        assert(template_views(r@) =~= before.push(view));
        assert(own.take(i + 1) =~= own.take(i as int).push(own[i as int]));
        i = i + 1;
    }
    assert(template_views(r@) =~= own);
    let ghost more = shown_builtins(builtins@);
    let mut k: usize = 0;
    assert(template_views(r@) =~= own + more.take(0));
    while k < builtins.entries.len()
        invariant
            k <= builtins.entries@.len(),
            more == shown_builtins(builtins@),
            template_views(r@) =~= own + more.take(k as int),
        decreases builtins.entries@.len() - k,
    {
        let ghost before = template_views(r@);
        let template: FunctionTemplate = builtins.entries[k].1.copy();
        let ghost view = template@;
        r.push(template);
        assert(template_views(r@) =~= before.push(view));
        assert(own + more.take(k + 1) =~= (own + more.take(k as int)).push(more[k as int]));
        k = k + 1;
    }
    assert(more.take(k as int) =~= more);
    Some(r)
}

} // verus!
