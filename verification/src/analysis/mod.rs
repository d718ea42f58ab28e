//! The analysis of one root document: its functions, imports, sources and diagnostics.

use vstd::prelude::*;

use ropey::Rope;

use crate::analysis::entry_point::{
    all_uses, any_duplicate_main, collect_use_declarations, compiler_source, compiler_text,
    failure_reports, lemma_no_duplicate_main, opt_graph, parsed_graph,
    remap_imported_main_diagnostics, use_views, GraphView, ImportGraph, ParsedGraph,
};
use crate::analysis::resolution::{budget_of, unit_id, unit_number, Target};
use crate::analysis::scopes::{
    collect_call_scopes, documentation_of, function_documentation, inner_scopes, scope_owning,
    scope_views, CallScope, ScopeView,
};
use crate::analysis::sources::{
    compiler_sources, function_of, with_entry, CompilerSource, Functions, NamedView, SourceDocument,
    SourceSet, SourceView,
};
use crate::compiler::{
    cannot_parse, cannot_parse_report, parse_program, parsed, UnstableFeature,
};
use crate::report::{copy_reports, report_views, CompilerDiagnostic, ReportView};
use crate::rope::{rope_chars, rope_clone, rope_from_str};
use crate::syntax::{
    item_view, item_views, lemma_item_views, Function, FunctionView, Item, ItemView, Program, UseDecl,
    UseView,
};

pub mod entry_point;
pub mod graph_laws;
pub mod laws;
pub mod resolution;
pub mod scopes;
pub mod sources;

verus! {

broadcast use lemma_item_views;

/// The result of analyzing one root document.
#[derive(Debug)]
pub struct AnalysisSnapshot {
    pub functions: Functions,
    pub use_declarations: Vec<UseDecl>,
    pub sources: SourceSet,
    pub text: Rope,
    pub version: Option<i32>,
    pub compiler_diagnostics: Vec<CompilerDiagnostic>,
    pub call_scopes: Vec<CallScope>,
}

/// What an [`AnalysisSnapshot`] says.
#[verifier::ext_equal]
pub struct SnapshotView {
    pub functions: Seq<NamedView>,
    pub use_declarations: Seq<UseView>,
    pub sources: Map<nat, SourceView>,
    pub text: Seq<char>,
    pub version: Option<i32>,
    pub compiler_diagnostics: Seq<ReportView>,
    pub call_scopes: Seq<ScopeView>,
}

impl View for AnalysisSnapshot {
    type V = SnapshotView;

    open spec fn view(&self) -> SnapshotView {
        SnapshotView {
            functions: self.functions@,
            use_declarations: use_views(self.use_declarations@),
            sources: self.sources@,
            text: rope_chars(self.text),
            version: self.version,
            compiler_diagnostics: report_views(self.compiler_diagnostics@),
            call_scopes: scope_views(self.call_scopes@),
        }
    }
}

/// The snapshot of a document of which nothing is known but its text.
pub open spec fn empty_snapshot(uri: Seq<char>, text: Seq<char>) -> SnapshotView {
    SnapshotView {
        functions: Seq::empty(),
        use_declarations: Seq::empty(),
        sources: Map::empty().insert(0, SourceView { uri, text }),
        text,
        version: None,
        compiler_diagnostics: Seq::empty(),
        call_scopes: Seq::empty(),
    }
}

/// The functions among some items with their documentation; a later one of a name counts.
pub open spec fn documented(items: Seq<ItemView>, text: Seq<char>) -> Seq<NamedView>
    decreases items.len(),
{
    if items.len() == 0 {
        Seq::empty()
    } else {
        let before = documented(items.drop_last(), text);
        match items.last() {
            ItemView::Function(function) => with_entry(
                before,
                NamedView {
                    name: function.name,
                    function,
                    documentation: documentation_of(function, text),
                },
            ),
            _ => before,
        }
    }
}

/// The snapshot of a document that could be parsed, before the compiler has seen it.
pub open spec fn program_snapshot(
    items: Seq<ItemView>,
    uri: Seq<char>,
    text: Seq<char>,
) -> SnapshotView {
    SnapshotView {
        functions: documented(items, text),
        use_declarations: all_uses(items),
        ..empty_snapshot(uri, text)
    }
}

/// The names that the root of a resolved program imports: the imports of its unit zero.
pub open spec fn root_bindings(program: Seq<ItemView>) -> Seq<(Seq<char>, Target)>
    decreases program.len(),
{
    if program.len() == 0 {
        Seq::empty()
    } else {
        let before = root_bindings(program.drop_last());
        match program.last() {
            ItemView::Module(module) => if unit_number(module.name) == Some(0nat) {
                before + scopes::import_bindings(module.items)
            } else {
                before
            },
            _ => before,
        }
    }
}

/// Functions, and those that some bindings find in the sources that are known, with their
/// documentation.
pub open spec fn with_imports(
    program: Seq<ItemView>,
    sources: Map<nat, SourceView>,
    entries: Seq<NamedView>,
    bindings: Seq<(Seq<char>, Target)>,
) -> Seq<NamedView>
    decreases bindings.len(),
{
    if bindings.len() == 0 {
        entries
    } else {
        let before = with_imports(program, sources, entries, bindings.drop_last());
        let (name, target) = bindings.last();
        match scopes::bound_function(program, target) {
            Some(function) => if sources.dom().contains(function.span.file_id as nat) {
                with_entry(
                    before,
                    NamedView {
                        name,
                        function,
                        documentation: documentation_of(
                            function,
                            sources[function.span.file_id as nat].text,
                        ),
                    },
                )
            } else {
                before
            },
            None => before,
        }
    }
}

/// The sources of a snapshot's program: the root as the snapshot has it, and the others as the
/// compiler hands them out.
pub open spec fn snapshot_sources(
    snapshot: SnapshotView,
    sources: Seq<CompilerSource>,
) -> Map<nat, SourceView> {
    compiler_sources(sources, SourceView { uri: snapshot.sources[0].uri, text: snapshot.text })
}

/// A snapshot with the functions that its root imports, under the names it gives them.
pub open spec fn with_visible_functions(
    snapshot: SnapshotView,
    program: Seq<ItemView>,
    sources: Seq<CompilerSource>,
) -> SnapshotView {
    SnapshotView {
        functions: with_imports(
            program,
            snapshot_sources(snapshot, sources),
            snapshot.functions,
            root_bindings(program),
        ),
        sources: snapshot_sources(snapshot, sources),
        call_scopes: snapshot.call_scopes + inner_scopes(program, program),
        ..snapshot
    }
}

/// What came of handing a root document to the compiler.
#[derive(Debug)]
pub enum Compilation {
    /// The project or the document could not be found; the text says why.
    Unavailable(String),
    /// The compiler resolved the program. It hands out the sources unless it works on one file.
    Resolved {
        program: Program,
        sources: Option<Vec<CompilerSource>>,
        diagnostics: Vec<CompilerDiagnostic>,
    },
    /// The compiler gave up; the graph holds the sources it had read.
    Failed { graph: Option<ImportGraph>, diagnostics: Vec<CompilerDiagnostic> },
}

/// The snapshot of a document that could be parsed, with what came of compiling it.
pub open spec fn compiled_snapshot(
    snapshot: SnapshotView,
    items: Seq<ItemView>,
    parse_reports: Seq<ReportView>,
    outcome: Compilation,
    graph: Option<GraphView>,
) -> SnapshotView {
    match outcome {
        Compilation::Unavailable(message) => SnapshotView {
            compiler_diagnostics: parse_reports.push(cannot_parse_report(message@)),
            ..snapshot
        },
        Compilation::Resolved { program, sources, diagnostics } => SnapshotView {
            compiler_diagnostics: report_views(diagnostics@),
            ..match sources {
                Some(sources) => with_visible_functions(snapshot, program@, sources@),
                None => snapshot,
            }
        },
        Compilation::Failed { graph: imports, diagnostics } => SnapshotView {
            compiler_diagnostics: failure_reports(report_views(diagnostics@), items, graph),
            sources: match imports {
                Some(imports) => snapshot_sources(snapshot, imports.sources@),
                None => snapshot.sources,
            },
            ..snapshot
        },
    }
}

/// What the sources of a program hold that could not be compiled.
pub open spec fn graph_of(outcome: Compilation) -> Option<GraphView> {
    match outcome {
        Compilation::Failed { graph: Some(graph), .. } => Some(parsed_graph(graph)),
        _ => None,
    }
}

/// The snapshot of a document of which the parser says something, and the compiler something more;
/// `graph` is what the sources hold where the program could not be compiled.
pub open spec fn assembled(
    text: Seq<char>,
    uri: Seq<char>,
    items: Option<Seq<ItemView>>,
    reports: Seq<ReportView>,
    outcome: Compilation,
    graph: Option<GraphView>,
) -> SnapshotView {
    match items {
        None => SnapshotView { compiler_diagnostics: reports, ..empty_snapshot(uri, text) },
        Some(items) => compiled_snapshot(
            program_snapshot(items, uri, text),
            items,
            reports,
            outcome,
            graph,
        ),
    }
}

/// The snapshot of a document, given what came of compiling it.
pub open spec fn analyzed(
    text: Seq<char>,
    uri: Seq<char>,
    features: Seq<UnstableFeature>,
    outcome: Compilation,
) -> SnapshotView {
    let (items, reports) = parsed(0, text, features);
    assembled(text, uri, items, reports, outcome, graph_of(outcome))
}

/// Whatever comes of an analysis, the snapshot holds the text that was analyzed, and the root keeps
/// the URI by which the editor knows it.
pub proof fn law_snapshot_keeps_the_root(
    text: Seq<char>,
    uri: Seq<char>,
    features: Seq<UnstableFeature>,
    outcome: Compilation,
)
    ensures
        analyzed(text, uri, features, outcome).text == text,
        analyzed(text, uri, features, outcome).sources.dom().contains(0),
        analyzed(text, uri, features, outcome).sources[0] == (SourceView { uri, text }),
{
    let root = SourceView { uri, text };
    match outcome {
        Compilation::Resolved { program, sources, diagnostics } => {
            if let Some(sources) = sources {
                lemma_root_is_kept(sources@, root);
            }
        },
        Compilation::Failed { graph, diagnostics } => {
            if let Some(graph) = graph {
                lemma_root_is_kept(graph.sources@, root);
            }
        },
        _ => {},
    }
}

proof fn lemma_root_is_kept(sources: Seq<CompilerSource>, root: SourceView)
    ensures
        compiler_sources(sources, root).dom().contains(0),
        compiler_sources(sources, root)[0] == root,
    decreases sources.len(),
{
    if sources.len() > 0 {
        lemma_root_is_kept(sources.drop_last(), root);
    }
}

impl AnalysisSnapshot {
    /// The snapshot of a document of which nothing is known but its text.
    pub fn new(uri: String, text: Rope) -> (r: AnalysisSnapshot)
        ensures
            r@ == empty_snapshot(uri@, rope_chars(text)),
    {
        let r = AnalysisSnapshot {
            functions: Functions::new(),
            use_declarations: Vec::new(),
            sources: SourceSet::root(uri, rope_clone(&text)),
            text,
            version: None,
            compiler_diagnostics: Vec::new(),
            call_scopes: Vec::new(),
        };
        assert(r@ =~= empty_snapshot(uri@, rope_chars(text)));
        r
    }

    /// The snapshot of a document that could be parsed.
    pub fn from_program(program: &Program, text: &str, uri: String) -> (r: AnalysisSnapshot)
        ensures
            r@ == program_snapshot(program@, uri@, text@),
    {
        let ghost shown = program@;
        let mut r: AnalysisSnapshot = AnalysisSnapshot::new(uri, rope_from_str(text));
        collect_use_declarations(&program.items, &mut r.use_declarations);
        assert(use_views(r.use_declarations@) =~= all_uses(program@));
        let ghost before = r@;
        let mut i: usize = 0;
        while i < program.items.len()
            invariant
                i <= program.items@.len(),
                shown == item_views(program.items@),
                before.text == text@,
                r@ == (SnapshotView { functions: documented(shown.take(i as int), text@), ..before }),
            decreases program.items@.len() - i,
        {
            assert(shown.take(i + 1).drop_last() == shown.take(i as int));
            assert(shown.take(i + 1).last() == item_view(program.items@[i as int]));
            if let Item::Function(function) = &program.items[i] {
                let documentation: String = function_documentation(function, &r.text);
                r.functions.insert(function.name.clone(), function.copy(), documentation);
                assert(r@ =~= (SnapshotView {
                    functions: documented(shown.take(i + 1), text@),
                    ..before
                }));
            }
            i = i + 1;
        }
        assert(shown.take(i as int) == shown);
        assert(r@ =~= program_snapshot(program@, uri@, text@));
        r
    }

    /// Takes over the sources that the compiler hands out.
    pub fn populate_sources(&mut self, sources: &Vec<CompilerSource>)
        ensures
            final(self)@ == (SnapshotView {
                sources: snapshot_sources(old(self)@, sources@),
                ..old(self)@
            }),
    {
        let ghost before = self@;
        let root = SourceDocument {
            uri: self.sources.root_source().uri.clone(),
            text: rope_clone(&self.text),
        };
        self.sources = SourceSet::from_compiler(sources, &root);
        assert(self@ =~= (SnapshotView { sources: snapshot_sources(before, sources@), ..before }));
    }

    /// Adds the functions that the root imports, under the names it gives them, and the scopes of
    /// every module.
    pub fn populate_visible_functions(&mut self, program: &Program, sources: &Vec<CompilerSource>)
        ensures
            final(self)@ == with_visible_functions(old(self)@, program@, sources@),
    {
        let ghost before = self@;
        self.populate_sources(sources);
        let budget: usize = budget_of(program);
        collect_call_scopes(program, &program.items, budget, &mut self.call_scopes);
        let ghost known = snapshot_sources(before, sources@);
        let ghost shown = program@;
        let ghost base = SnapshotView {
            sources: known,
            call_scopes: before.call_scopes + inner_scopes(program@, program@),
            ..before
        };
        assert(self@ =~= base);
        let mut i: usize = 0;
        assert(self@ =~= (SnapshotView {
            functions: with_imports(shown, known, before.functions, root_bindings(shown.take(0))),
            ..base
        }));
        while i < program.items.len()
            invariant
                i <= program.items@.len(),
                budget == resolution::lookup_budget(program@),
                shown == program@,
                shown == item_views(program.items@),
                known == base.sources,
                self@ == (SnapshotView {
                    functions: with_imports(
                        shown,
                        known,
                        before.functions,
                        root_bindings(shown.take(i as int)),
                    ),
                    ..base
                }),
            decreases program.items@.len() - i,
        {
            assert(shown.take(i + 1).drop_last() == shown.take(i as int));
            assert(shown.take(i + 1).last() == item_view(program.items@[i as int]));
            if let Item::Module(module) = &program.items[i] {
                if let Some(0) = unit_id(module.name.as_str()) {
                    let bindings: Vec<scopes::Binding> = scopes::collect_bindings(&module.items);
                    let ghost earlier = root_bindings(shown.take(i as int));
                    let ghost own = scopes::binding_views(bindings@);
                    let mut k: usize = 0;
                    assert(earlier + own.take(0) =~= earlier);
                    while k < bindings.len()
                        invariant
                            k <= bindings@.len(),
                            budget == resolution::lookup_budget(program@),
                            shown == program@,
                            own == scopes::binding_views(bindings@),
                            known == base.sources,
                            self@ == (SnapshotView {
                                functions: with_imports(
                                    shown,
                                    known,
                                    before.functions,
                                    earlier + own.take(k as int),
                                ),
                                ..base
                            }),
                        decreases bindings@.len() - k,
                    {
                        proof {
                            let all = earlier + own.take(k + 1);
                            assert(all.drop_last() =~= earlier + own.take(k as int));
                            assert(all.last() == (
                                bindings@[k as int].name@,
                                bindings@[k as int].key@,
                            ));
                        }
                        if let Some(function) = scopes::look_up(program, &bindings[k].key, budget) {
                            let documentation: Option<String> = match self.sources.get(
                                function.span.file_id,
                            ) {
                                Some(source) => Some(function_documentation(function, &source.text)),
                                None => None,
                            };
                            if let Some(documentation) = documentation {
                                self.functions.insert(
                                    bindings[k].name.clone(),
                                    function.copy(),
                                    documentation,
                                );
                            }
                        }
                        assert(self@ =~= (SnapshotView {
                            functions: with_imports(
                                shown,
                                known,
                                before.functions,
                                earlier + own.take(k + 1),
                            ),
                            ..base
                        }));
                        k = k + 1;
                    }
                    assert(own.take(k as int) == own);
                }
            }
            i = i + 1;
        }
        assert(shown.take(i as int) == shown);
        assert(self@ =~= with_visible_functions(before, program@, sources@));
    }

    /// The text that the compiler is to get for a document, where the document can be parsed.
    pub fn compiler_input(text: &str, features: &Vec<UnstableFeature>) -> (r: Option<String>)
        ensures
            match r {
                Some(source) => match parsed(0, text@, features@).0 {
                    Some(items) => source@ == compiler_text(items, text@),
                    None => false,
                },
                None => parsed(0, text@, features@).0 is None,
            },
    {
        match parse_program(0, text, features).0 {
            Some(program) => Some(compiler_source(&program, text)),
            None => None,
        }
    }

    /// Analyzes a document, given what came of compiling [`AnalysisSnapshot::compiler_input`]. A
    /// snapshot comes of every document, so that editor features have the latest text.
    pub fn analyze(
        text: &str,
        uri: String,
        features: &Vec<UnstableFeature>,
        outcome: &Compilation,
    ) -> (r: AnalysisSnapshot)
        ensures
            r@ == analyzed(text@, uri@, features@, *outcome),
    {
        let (program, diagnostics) = parse_program(0, text, features);
        let graph: Option<ParsedGraph> = match outcome {
            Compilation::Failed { graph: Some(graph), diagnostics: found } => if any_duplicate_main(
                found,
            ) {
                Some(graph.parse())
            } else {
                proof {
                    if let Some(items) = parsed(0, text@, features@).0 {
                        lemma_no_duplicate_main(report_views(found@), items, graph_of(*outcome));
                    }
                }
                None
            },
            _ => None,
        };
        Self::assemble(text, uri, program, diagnostics, outcome, &graph)
    }

    /// The snapshot of a document of which the parser says something, and the compiler something
    /// more; `graph` is what the sources hold where the program could not be compiled.
    pub fn assemble(
        text: &str,
        uri: String,
        program: Option<Program>,
        parse_diagnostics: Vec<CompilerDiagnostic>,
        outcome: &Compilation,
        graph: &Option<ParsedGraph>,
    ) -> (r: AnalysisSnapshot)
        ensures
            r@ == assembled(
                text@,
                uri@,
                match program {
                    Some(program) => Some(program@),
                    None => None,
                },
                report_views(parse_diagnostics@),
                *outcome,
                opt_graph(*graph),
            ),
    {
        let mut diagnostics: Vec<CompilerDiagnostic> = parse_diagnostics;
        let ghost name = uri@;
        let ghost reports = report_views(diagnostics@);
        match program {
            None => {
                let mut snapshot: AnalysisSnapshot = AnalysisSnapshot::new(uri, rope_from_str(text));
                snapshot.compiler_diagnostics = diagnostics;
                assert(snapshot@ =~= assembled(
                    text@,
                    name,
                    None,
                    reports,
                    *outcome,
                    opt_graph(*graph),
                ));
                snapshot
            },
            Some(program) => {
                let mut snapshot: AnalysisSnapshot = AnalysisSnapshot::from_program(
                    &program,
                    text,
                    uri,
                );
                match outcome {
                    Compilation::Unavailable(message) => {
                        diagnostics.push(cannot_parse(message.as_str()));
                        assert(report_views(diagnostics@) =~= reports.push(
                            cannot_parse_report(message@),
                        ));
                        snapshot.compiler_diagnostics = diagnostics;
                    },
                    Compilation::Resolved { program: resolved, sources, diagnostics: found } => {
                        if let Some(sources) = sources {
                            snapshot.populate_visible_functions(resolved, sources);
                        }
                        snapshot.compiler_diagnostics = copy_reports(found);
                    },
                    Compilation::Failed { graph: imports, diagnostics: found } => {
                        if let Some(imports) = imports {
                            snapshot.populate_sources(&imports.sources);
                        }
                        snapshot.compiler_diagnostics = remap_imported_main_diagnostics(
                            found,
                            &program,
                            graph,
                        );
                    },
                }
                assert(snapshot@ =~= assembled(
                    text@,
                    name,
                    Some(program@),
                    reports,
                    *outcome,
                    opt_graph(*graph),
                ));
                snapshot
            },
        }
    }

    /// What a name means in the body of a function. Where the scope of the function is known, it
    /// alone decides.
    pub fn resolve_custom_call(&self, owner: &Function, name: &str) -> (r: Option<&Function>)
        ensures
            match r {
                Some(function) => called_function(self@, owner.span, name@) == Some(function@),
                None => called_function(self@, owner.span, name@) is None,
            },
    {
        let ghost shown = scope_views(self.call_scopes@);
        let mut n: usize = self.call_scopes.len();
        assert(shown.take(n as int) == shown);
        while n > 0
            invariant
                n <= self.call_scopes@.len(),
                shown == scope_views(self.call_scopes@),
                scope_owning(shown, owner.span) == scope_owning(shown.take(n as int), owner.span),
            decreases n,
        {
            let scope: &CallScope = &self.call_scopes[n - 1];
            assert(shown.take(n as int).last() == scope@);
            assert(shown.take(n as int).drop_last() == shown.take(n - 1));
            if contains_span(&scope.owners, owner.span) {
                return scope.bindings.get_func(name);
            }
            n = n - 1;
        }
        self.functions.get_func(name)
    }
}

/// What a name means in the body of the function at a span: what the scope of the function says, or
/// where that is not known what is visible at the root.
pub open spec fn called_function(snapshot: SnapshotView, owner: crate::text::Span, name: Seq<char>) -> Option<
    FunctionView,
> {
    match scope_owning(snapshot.call_scopes, owner) {
        Some(bindings) => function_of(bindings, name),
        None => function_of(snapshot.functions, name),
    }
}

/// Whether a list of spans holds one.
fn contains_span(list: &Vec<crate::text::Span>, span: crate::text::Span) -> (r: bool)
    ensures
        r == list@.contains(span),
{
    let mut i: usize = 0;
    while i < list.len()
        invariant
            i <= list@.len(),
            forall|k: int| 0 <= k < i ==> list@[k] != span,
        decreases list@.len() - i,
    {
        if list[i] == span {
            return true;
        }
        i = i + 1;
    }
    false
}

} // verus!
