//! What holds of every analysis of a document.

use vstd::prelude::*;

use crate::analysis::entry_point::{
    all_uses, brings_main, compiler_text, contain_main, duplicates_among, failure_reports, leads,
    lemma_main_imports_unique, main_imports, main_in, other_imports, reached, source_items,
    GraphView,
};
use crate::analysis::resolution::{
    function_in, imports_of, items_at, lookup_budget, resolve, unit_name, use_imports, use_target,
    Target,
};
use crate::analysis::scopes::{
    bound_function, documentation_of, function_spans, import_bindings, inner_scopes, own_functions,
    plain_entry, scope_of, use_bindings, with_bindings, ScopeView,
};
use crate::analysis::sources::{
    compiler_sources, entry_of, law_named_function_is_found, names_differ, CompilerSource,
    NamedView, SourceView,
};
use crate::analysis::{analyzed, documented, root_bindings, with_imports, Compilation};
use crate::compiler::{parsed, UnstableFeature};
use crate::numbers::law_decimal_round_trip;
use crate::protocol::Severity;
use crate::report::{report_views, ErrorKindView, LabelView, Place, ReportView};
use crate::syntax::{FunctionView, ItemView, UseItemView, UseView};
use crate::text::{doc_lines, join_doc_lines, position_of_offset, Span};

verus! {

/// A document that cannot be read shows what the parser says of it. One that can be read shows what
/// the compiler says; where the compiler could not be asked, what the parser says and why.
pub proof fn law_analysis_shows_what_was_found(
    text: Seq<char>,
    uri: Seq<char>,
    features: Seq<UnstableFeature>,
    outcome: Compilation,
)
    ensures
        ({
            let (items, reports) = parsed(0, text, features);
            let shown = analyzed(text, uri, features, outcome).compiler_diagnostics;
            &&& items is None ==> shown == reports
            &&& items is Some ==> match outcome {
                Compilation::Unavailable(message) => {
                    &&& shown.len() == reports.len() + 1
                    &&& shown.drop_last() =~= reports
                    &&& shown.last().kind == ErrorKindView::CannotParse(message@)
                    &&& shown.last().message == "Cannot parse: "@ + message@
                    &&& shown.last().severity == Severity::Error
                    &&& shown.last().place == Place::Code(Span { file_id: 0, start: 0, end: 0 })
                },
                Compilation::Resolved { diagnostics, .. } => shown == report_views(diagnostics@),
                Compilation::Failed { diagnostics, .. } => {
                    &&& shown.len() == diagnostics@.len()
                    &&& forall|i: int|
                        0 <= i < shown.len() ==> {
                            let own = report_views(diagnostics@)[i];
                            &&& (#[trigger] shown[i]).kind == own.kind
                            &&& shown[i].message == own.message
                            &&& shown[i].severity == own.severity
                            &&& own.kind != ErrorKindView::FunctionRedefined("main"@)
                                ==> shown[i] == own
                        }
                },
            }
        }),
{
}

/// The functions of a document are visible under their names, the last of several with one name,
/// each with its documentation. Nothing else in a document changes which functions are visible.
pub proof fn law_functions_are_visible(
    items: Seq<ItemView>,
    item: ItemView,
    text: Seq<char>,
    name: Seq<char>,
)
    ensures
        documented(Seq::empty(), text).len() == 0,
        names_differ(documented(items, text)),
        entry_of(documented(items.push(item), text), name) == (match item {
            ItemView::Function(function) => if function.name == name {
                Some(
                    NamedView { name, function, documentation: documentation_of(function, text) },
                )
            } else {
                entry_of(documented(items, text), name)
            },
            _ => entry_of(documented(items, text), name),
        }),
    decreases items.len(),
{
    assert(items.push(item).drop_last() =~= items);
    lemma_documented(items, text);
    if let ItemView::Function(function) = item {
        law_named_function_is_found(
            documented(items, text),
            NamedView {
                name: function.name,
                function,
                documentation: documentation_of(function, text),
            },
            name,
        );
    }
}

proof fn lemma_documented(items: Seq<ItemView>, text: Seq<char>)
    ensures
        names_differ(documented(items, text)),
    decreases items.len(),
{
    if items.len() > 0 {
        lemma_documented(items.drop_last(), text);
        if let ItemView::Function(function) = items.last() {
            law_named_function_is_found(
                documented(items.drop_last(), text),
                NamedView {
                    name: function.name,
                    function,
                    documentation: documentation_of(function, text),
                },
                function.name,
            );
        }
    }
}

/// A document that can be read has its functions and its imports, whatever came of compiling it;
/// where the program was resolved, what it imports comes to its functions.
pub proof fn law_readable_document_has_its_functions(
    text: Seq<char>,
    uri: Seq<char>,
    features: Seq<UnstableFeature>,
    outcome: Compilation,
    items: Seq<ItemView>,
)
    requires
        parsed(0, text, features).0 == Some(items),
    ensures
        ({
            let snapshot = analyzed(text, uri, features, outcome);
            &&& snapshot.use_declarations == all_uses(items)
            &&& match outcome {
                Compilation::Resolved { program, sources: Some(sources), .. } => {
                    let known = compiler_sources(sources@, SourceView { uri, text });
                    &&& snapshot.functions == with_imports(
                        program@,
                        known,
                        documented(items, text),
                        root_bindings(program@),
                    )
                    &&& snapshot.sources == known
                    &&& snapshot.call_scopes == inner_scopes(program@, program@)
                },
                Compilation::Failed { graph: Some(graph), .. } => {
                    &&& snapshot.functions == documented(items, text)
                    &&& snapshot.sources == compiler_sources(
                        graph.sources@,
                        SourceView { uri, text },
                    )
                },
                _ => {
                    &&& snapshot.functions == documented(items, text)
                    &&& snapshot.sources == Map::<nat, SourceView>::empty().insert(
                        0,
                        SourceView { uri, text },
                    )
                },
            }
        }),
{
    match outcome {
        Compilation::Resolved { program, sources: Some(sources), .. } => {
            let all = inner_scopes(program@, program@);
            assert(Seq::<ScopeView>::empty() + all =~= all);
        },
        _ => {},
    }
}

/// The sources of a program are the root, which keeps the number zero, and every other one under
/// its number; of two with one number the later counts.
pub proof fn law_sources_have_their_numbers(
    sources: Seq<CompilerSource>,
    source: CompilerSource,
    root: SourceView,
)
    ensures
        compiler_sources(Seq::empty(), root) == Map::<nat, SourceView>::empty().insert(0, root),
        compiler_sources(sources.push(source), root) == (if source.file_id == 0 {
            compiler_sources(sources, root)
        } else {
            compiler_sources(sources, root).insert(
                source.file_id as nat,
                SourceView { uri: source.uri@, text: source.content@ },
            )
        }),
{
    assert(sources.push(source).drop_last() =~= sources);
}

/// A name that the root imports means the function that it is bound to, if that stands in a known
/// source, with its documentation there; the other names keep their meaning.
pub proof fn law_imported_functions_are_visible(
    program: Seq<ItemView>,
    sources: Map<nat, SourceView>,
    entries: Seq<NamedView>,
    bindings: Seq<(Seq<char>, Target)>,
    local: Seq<char>,
    target: Target,
    name: Seq<char>,
)
    requires
        names_differ(entries),
    ensures
        with_imports(program, sources, entries, Seq::empty()) == entries,
        names_differ(with_imports(program, sources, entries, bindings)),
        ({
            let before = with_imports(program, sources, entries, bindings);
            let after = with_imports(program, sources, entries, bindings.push((local, target)));
            match bound_function(program, target) {
                Some(function) => if sources.dom().contains(function.span.file_id as nat) {
                    entry_of(after, name) == (if name == local {
                        Some(
                            NamedView {
                                name,
                                function,
                                documentation: documentation_of(
                                    function,
                                    sources[function.span.file_id as nat].text,
                                ),
                            },
                        )
                    } else {
                        entry_of(before, name)
                    })
                } else {
                    after == before
                },
                None => after == before,
            }
        }),
{
    assert(bindings.push((local, target)).drop_last() =~= bindings);
    lemma_with_imports(program, sources, entries, bindings);
    if let Some(function) = bound_function(program, target) {
        if sources.dom().contains(function.span.file_id as nat) {
            law_named_function_is_found(
                with_imports(program, sources, entries, bindings),
                NamedView {
                    name: local,
                    function,
                    documentation: documentation_of(
                        function,
                        sources[function.span.file_id as nat].text,
                    ),
                },
                name,
            );
        }
    }
}

proof fn lemma_with_imports(
    program: Seq<ItemView>,
    sources: Map<nat, SourceView>,
    entries: Seq<NamedView>,
    bindings: Seq<(Seq<char>, Target)>,
)
    requires
        names_differ(entries),
    ensures
        names_differ(with_imports(program, sources, entries, bindings)),
    decreases bindings.len(),
{
    if bindings.len() > 0 {
        lemma_with_imports(program, sources, entries, bindings.drop_last());
        let (name, target) = bindings.last();
        if let Some(function) = bound_function(program, target) {
            if sources.dom().contains(function.span.file_id as nat) {
                law_named_function_is_found(
                    with_imports(program, sources, entries, bindings.drop_last()),
                    NamedView {
                        name,
                        function,
                        documentation: documentation_of(
                            function,
                            sources[function.span.file_id as nat].text,
                        ),
                    },
                    name,
                );
            }
        }
    }
}

/// An import whose path goes through a unit brings in the name of its item from the module of that
/// unit that the rest of the path names.
pub proof fn law_import_names_its_target(
    declaration: UseView,
    item: UseItemView,
    root: Seq<char>,
    file_id: nat,
    path: Seq<Seq<char>>,
)
    requires
        file_id <= usize::MAX,
        declaration.path == seq![root, unit_name(file_id)] + path,
    ensures
        use_target(declaration, item) == Some(Target { file_id, path, name: item.name }),
        unit_name(file_id) == "unit_"@ + crate::numbers::decimal(file_id),
{
    law_decimal_round_trip(file_id);
    let name = unit_name(file_id);
    let digits = crate::numbers::decimal(file_id);
    assert(declaration.path[1] == name);
    assert(declaration.path.skip(2) =~= path);
    assert(name.skip("unit_"@.len() as int) =~= digits);
    assert(name.subrange(0, "unit_"@.len() as int) =~= "unit_"@);
    assert("unit_"@.is_prefix_of(name));
}

/// The imports of the root bind each of their items, by the name it gets, in their order; only the
/// unit zero is the root.
pub proof fn law_root_binds_its_imports(
    program: Seq<ItemView>,
    item: ItemView,
    items: Seq<ItemView>,
    declaration: UseView,
    names: Seq<UseItemView>,
    name: UseItemView,
    number: nat,
)
    requires
        number <= usize::MAX,
        item matches ItemView::Module(module) ==> module.name == unit_name(number),
    ensures
        root_bindings(Seq::empty()).len() == 0,
        root_bindings(program.push(item)) == (match item {
            ItemView::Module(_) => if number == 0 {
                root_bindings(program) + import_bindings(item->Module_0.items)
            } else {
                root_bindings(program)
            },
            _ => root_bindings(program),
        }),
        import_bindings(Seq::empty()).len() == 0,
        import_bindings(items.push(item)) == (match item {
            ItemView::Use(own) => import_bindings(items) + use_bindings(own, own.items),
            _ => import_bindings(items),
        }),
        use_bindings(declaration, Seq::empty()).len() == 0,
        use_bindings(declaration, names.push(name)) == (match use_target(declaration, name) {
            Some(target) => use_bindings(declaration, names).push(
                (
                    match name.alias {
                        Some(alias) => alias,
                        None => name.name,
                    },
                    target,
                ),
            ),
            None => use_bindings(declaration, names),
        }),
{
    assert(program.push(item).drop_last() =~= program);
    assert(items.push(item).drop_last() =~= items);
    assert(names.push(name).drop_last() =~= names);
    if let ItemView::Module(module) = item {
        law_decimal_round_trip(number);
        assert(module.name.skip("unit_"@.len() as int) =~= crate::numbers::decimal(number));
        assert(module.name.subrange(0, "unit_"@.len() as int) =~= "unit_"@);
        assert("unit_"@.is_prefix_of(module.name));
    }
}

/// Whether the function at an index of some items is the first of a name.
pub open spec fn is_first_function(
    items: Seq<ItemView>,
    i: int,
    name: Seq<char>,
    function: FunctionView,
) -> bool {
    &&& 0 <= i < items.len()
    &&& items[i] == ItemView::Function(function)
    &&& function.name == name
    &&& forall|k: int|
        0 <= k < i ==> !(#[trigger] items[k] matches ItemView::Function(other) && other.name
            == name)
}

/// Whether some items define no function of a name.
pub open spec fn defines_none(items: Seq<ItemView>, name: Seq<char>) -> bool {
    forall|k: int|
        0 <= k < items.len() ==> !(#[trigger] items[k] matches ItemView::Function(other)
            && other.name == name)
}

/// A name finds the first function of that name.
pub proof fn law_first_function_is_found(
    items: Seq<ItemView>,
    i: int,
    name: Seq<char>,
    function: FunctionView,
)
    ensures
        is_first_function(items, i, name, function) ==> function_in(items, name) == Some(function),
        defines_none(items, name) ==> function_in(items, name) is None,
    decreases items.len(),
{
    if items.len() > 0 {
        let rest = items.drop_first();
        law_first_function_is_found(rest, i - 1, name, function);
        if is_first_function(items, i, name, function) && i > 0 {
            assert(!(items[0] matches ItemView::Function(other) && other.name == name));
            assert(rest[i - 1] == items[i]);
            assert forall|k: int| 0 <= k < i - 1 implies !(
            #[trigger] rest[k] matches ItemView::Function(other) && other.name == name) by {
                assert(rest[k] == items[k + 1]);
            }
        }
        if defines_none(items, name) {
            assert(!(items[0] matches ItemView::Function(other) && other.name == name));
            assert forall|k: int| 0 <= k < rest.len() implies !(
            #[trigger] rest[k] matches ItemView::Function(other) && other.name == name) by {
                assert(rest[k] == items[k + 1]);
            }
        }
    }
}

/// What imports bring in under a name comes in their order, each under the name that its item gets.
pub proof fn law_imports_bring_in_their_names(
    items: Seq<ItemView>,
    item: ItemView,
    declaration: UseView,
    names: Seq<UseItemView>,
    own: UseItemView,
    name: Seq<char>,
)
    ensures
        imports_of(Seq::empty(), name).len() == 0,
        imports_of(items.push(item), name) == (match item {
            ItemView::Use(other) => imports_of(items, name) + use_imports(other, other.items, name),
            _ => imports_of(items, name),
        }),
        use_imports(declaration, Seq::empty(), name).len() == 0,
        use_imports(declaration, names.push(own), name) == (if (match own.alias {
            Some(alias) => alias,
            None => own.name,
        }) == name {
            use_imports(declaration, names, name).push(use_target(declaration, own))
        } else {
            use_imports(declaration, names, name)
        }),
{
    assert(items.push(item).drop_last() =~= items);
    assert(names.push(own).drop_last() =~= names);
}

/// Whether each of some lookups but the last is that of a module which does not define the name but
/// imports it first from where the next lookup looks, and none is made twice.
pub open spec fn is_chain(program: Seq<ItemView>, chain: Seq<Target>) -> bool {
    &&& chain.len() > 0
    &&& chain.no_duplicates()
    &&& forall|k: int|
        0 <= k < chain.len() - 1 ==> {
            let target = #[trigger] chain[k];
            &&& items_at(program, target.file_id, target.path) matches Some(items)
                && defines_none(items, target.name) && imports_of(items, target.name).len() > 0
                && imports_of(items, target.name)[0] == Some(chain[k + 1])
        }
}

/// A name that is defined where it is looked up, or imported there from elsewhere, over however many
/// modules, is bound to the function that is defined in the end.
pub proof fn law_imports_are_followed(
    program: Seq<ItemView>,
    chain: Seq<Target>,
    items: Seq<ItemView>,
    i: int,
    function: FunctionView,
)
    requires
        is_chain(program, chain),
        chain.len() <= lookup_budget(program),
        items_at(program, chain.last().file_id, chain.last().path) == Some(items),
        is_first_function(items, i, chain.last().name, function),
    ensures
        bound_function(program, chain[0]) == Some(function),
{
    lemma_chain(
        program,
        chain,
        items,
        i,
        function,
        Set::empty(),
        lookup_budget(program),
    );
}

proof fn lemma_chain(
    program: Seq<ItemView>,
    chain: Seq<Target>,
    items: Seq<ItemView>,
    i: int,
    function: FunctionView,
    visited: Set<Target>,
    budget: nat,
)
    requires
        is_chain(program, chain),
        chain.len() <= budget,
        items_at(program, chain.last().file_id, chain.last().path) == Some(items),
        is_first_function(items, i, chain.last().name, function),
        forall|k: int| 0 <= k < chain.len() ==> !visited.contains(#[trigger] chain[k]),
    ensures
        resolve(program, chain[0], visited, budget).0 == Some(function),
    decreases chain.len(),
{
    let target = chain[0];
    assert(!visited.contains(chain[0]));
    if chain.len() == 1 {
        law_first_function_is_found(items, i, target.name, function);
    } else {
        let rest = chain.drop_first();
        let inner = items_at(program, target.file_id, target.path)->0;
        law_first_function_is_found(inner, 0, target.name, function);
        let marked = visited.insert(target);
        assert forall|k: int| 0 <= k < rest.len() - 1 implies {
            let target = #[trigger] rest[k];
            &&& items_at(program, target.file_id, target.path) matches Some(items)
                && defines_none(items, target.name) && imports_of(items, target.name).len() > 0
                && imports_of(items, target.name)[0] == Some(rest[k + 1])
        } by {
            assert(rest[k] == chain[k + 1]);
            assert(rest[k + 1] == chain[k + 1 + 1]);
        }
        assert forall|a: int, b: int| 0 <= a < rest.len() && 0 <= b < rest.len() && a
            != b implies rest[a] != rest[b] by {
            assert(rest[a] == chain[a + 1]);
            assert(rest[b] == chain[b + 1]);
        }
        assert forall|k: int| 0 <= k < rest.len() implies !marked.contains(#[trigger] rest[k]) by {
            assert(rest[k] == chain[k + 1]);
            assert(chain[k + 1] != chain[0]);
        }
        assert(rest.last() == chain.last());
        lemma_chain(program, rest, items, i, function, marked, (budget - 1) as nat);
        assert(imports_of(inner, target.name)[0] == Some(rest[0]));
    }
}

/// Inside of a module its own functions are visible under their names, and what it imports under
/// the names that it gives, which count where both have a name.
pub proof fn law_module_sees_its_own_and_its_imports(
    program: Seq<ItemView>,
    items: Seq<ItemView>,
    item: ItemView,
    entries: Seq<NamedView>,
    bindings: Seq<(Seq<char>, Target)>,
    local: Seq<char>,
    target: Target,
    name: Seq<char>,
)
    requires
        names_differ(entries),
    ensures
        scope_of(program, items) == with_bindings(
            program,
            own_functions(items),
            import_bindings(items),
        ),
        own_functions(Seq::empty()).len() == 0,
        names_differ(own_functions(items)),
        entry_of(own_functions(items.push(item)), name) == (match item {
            ItemView::Function(function) => if function.name == name {
                Some(NamedView { name, function, documentation: Seq::empty() })
            } else {
                entry_of(own_functions(items), name)
            },
            _ => entry_of(own_functions(items), name),
        }),
        with_bindings(program, entries, Seq::empty()) == entries,
        entry_of(with_bindings(program, entries, bindings.push((local, target))), name) == (match (
            bound_function(program, target),
            name == local,
        ) {
            (Some(function), true) => Some(
                NamedView { name, function, documentation: Seq::empty() },
            ),
            _ => entry_of(with_bindings(program, entries, bindings), name),
        }),
{
    assert(items.push(item).drop_last() =~= items);
    assert(bindings.push((local, target)).drop_last() =~= bindings);
    lemma_own_functions(items);
    lemma_with_bindings(program, entries, bindings);
    if let ItemView::Function(function) = item {
        law_named_function_is_found(
            own_functions(items),
            plain_entry(function.name, function),
            name,
        );
    }
    if let Some(function) = bound_function(program, target) {
        law_named_function_is_found(
            with_bindings(program, entries, bindings),
            plain_entry(local, function),
            name,
        );
    }
}

proof fn lemma_own_functions(items: Seq<ItemView>)
    ensures
        names_differ(own_functions(items)),
    decreases items.len(),
{
    if items.len() > 0 {
        lemma_own_functions(items.drop_last());
        if let ItemView::Function(function) = items.last() {
            law_named_function_is_found(
                own_functions(items.drop_last()),
                plain_entry(function.name, function),
                function.name,
            );
        }
    }
}

proof fn lemma_with_bindings(
    program: Seq<ItemView>,
    entries: Seq<NamedView>,
    bindings: Seq<(Seq<char>, Target)>,
)
    requires
        names_differ(entries),
    ensures
        names_differ(with_bindings(program, entries, bindings)),
    decreases bindings.len(),
{
    if bindings.len() > 0 {
        lemma_with_bindings(program, entries, bindings.drop_last());
        let (name, target) = bindings.last();
        if let Some(function) = bound_function(program, target) {
            law_named_function_is_found(
                with_bindings(program, entries, bindings.drop_last()),
                plain_entry(name, function),
                name,
            );
        }
    }
}

/// Every module, however deep, has a scope of its own: it is that of the functions that stand in
/// the module.
pub proof fn law_every_module_has_a_scope(
    program: Seq<ItemView>,
    items: Seq<ItemView>,
    item: ItemView,
)
    ensures
        inner_scopes(program, Seq::empty()).len() == 0,
        inner_scopes(program, items.push(item)) == (match item {
            ItemView::Module(module) => inner_scopes(program, items) + seq![
                ScopeView {
                    owners: function_spans(module.items),
                    bindings: scope_of(program, module.items),
                },
            ] + inner_scopes(program, module.items),
            _ => inner_scopes(program, items),
        }),
        function_spans(Seq::empty()).len() == 0,
        function_spans(items.push(item)) == (match item {
            ItemView::Function(function) => function_spans(items).push(function.span),
            _ => function_spans(items),
        }),
{
    assert(items.push(item).drop_last() =~= items);
    if let ItemView::Module(module) = item {
        let scope = ScopeView {
            owners: function_spans(module.items),
            bindings: scope_of(program, module.items),
        };
        assert(inner_scopes(program, items).push(scope) =~= inner_scopes(program, items) + seq![
            scope,
        ]);
    }
}

/// Whether a `main` and the imports of a program are looked for in its modules too, in the order of
/// the text.
pub proof fn law_modules_are_looked_into(items: Seq<ItemView>, item: ItemView)
    ensures
        !contain_main(Seq::empty()),
        contain_main(items.push(item)) == (contain_main(items) || match item {
            ItemView::Function(function) => function.name == "main"@,
            ItemView::Module(module) => contain_main(module.items),
            _ => false,
        }),
        all_uses(Seq::empty()).len() == 0,
        all_uses(items.push(item)) == (match item {
            ItemView::Use(declaration) => all_uses(items).push(declaration),
            ItemView::Module(module) => all_uses(items) + all_uses(module.items),
            _ => all_uses(items),
        }),
{
    assert(items.push(item).drop_last() =~= items);
}

/// The compiler gets an empty `main` behind a source that has none.
pub proof fn law_libraries_get_a_main(items: Seq<ItemView>, source: Seq<char>)
    ensures
        !contain_main(items) ==> compiler_text(items, source) == source + "\nfn main() {}\n"@,
        contain_main(items) ==> compiler_text(items, source) == source,
{
}

/// A `main` comes in with a source that holds one, or that imports a source with which one comes in.
pub proof fn law_main_comes_in_along_imports(graph: GraphView, file_id: usize, next: usize)
    ensures
        main_in(graph, file_id) ==> brings_main(graph, file_id),
        leads(graph, file_id, next) && brings_main(graph, next) ==> brings_main(graph, file_id),
        brings_main(graph, file_id) ==> main_in(graph, file_id) || exists|to: usize|
            #[trigger] leads(graph, file_id, to) && brings_main(graph, to),
        source_items(graph, file_id) matches Some(items) ==> main_in(graph, file_id)
            == contain_main(items),
{
    if main_in(graph, file_id) {
        assert(reached(graph, file_id, file_id, 0));
    }
    if leads(graph, file_id, next) && brings_main(graph, next) {
        let (to, steps) = choose|to: usize, steps: nat|
            #[trigger] reached(graph, next, to, steps) && main_in(graph, to);
        assert(reached(graph, file_id, to, steps + 1));
    }
    if brings_main(graph, file_id) && !main_in(graph, file_id) {
        let (to, steps) = choose|to: usize, steps: nat|
            #[trigger] reached(graph, file_id, to, steps) && main_in(graph, to);
        let between = choose|between: usize|
            #[trigger] leads(graph, file_id, between) && reached(
                graph,
                between,
                to,
                (steps - 1) as nat,
            );
        assert(brings_main(graph, between));
    }
}

/// A report of a second `main` points at an import of the root that brings one in, and names the
/// other such imports; the first such report points at the first of them.
pub proof fn law_second_main_points_at_its_import(
    reports: Seq<ReportView>,
    root: Seq<ItemView>,
    graph: GraphView,
    spans: Seq<Span>,
    i: int,
    k: int,
)
    requires
        main_imports(graph, root, spans),
        spans.len() > 0,
        0 <= i < reports.len(),
        reports[i].kind == ErrorKindView::FunctionRedefined("main"@),
        0 <= k < spans.len(),
    ensures
        ({
            let shown = failure_reports(reports, root, Some(graph))[i];
            &&& exists|p: int|
                0 <= p < spans.len() && shown.place == Place::Code(#[trigger] spans[p])
            &&& shown.place == Place::Code(spans[k]) || shown.secondary.contains(
                LabelView {
                    span: spans[k],
                    message: "Another imported `main` enters through this use"@,
                },
            )
            &&& (forall|j: int|
                0 <= j < i ==> (#[trigger] reports[j]).kind != ErrorKindView::FunctionRedefined(
                    "main"@,
                )) ==> shown.place == Place::Code(spans[0])
        }),
{
    let chosen = choose|other: Seq<Span>| #[trigger] main_imports(graph, root, other);
    lemma_main_imports_unique(graph, root, spans, chosen);
    let shown = failure_reports(reports, root, Some(graph))[i];
    let p = crate::analysis::entry_point::import_for(reports, spans, i);
    lemma_duplicates(reports, i);
    assert(shown.place == Place::Code(spans[p]));
    if k != p {
        lemma_other_imports(spans, p, spans.len() as int, k);
        let labels = other_imports(spans, p, spans.len() as int);
        let label = LabelView {
            span: spans[k],
            message: "Another imported `main` enters through this use"@,
        };
        let l = choose|l: int| 0 <= l < labels.len() && labels[l] == label;
        assert(shown.secondary[reports[i].secondary.len() + l] == label);
    }
}

proof fn lemma_duplicates(reports: Seq<ReportView>, n: int)
    requires
        0 <= n <= reports.len(),
    ensures
        (forall|j: int|
            0 <= j < n ==> (#[trigger] reports[j]).kind != ErrorKindView::FunctionRedefined(
                "main"@,
            )) ==> duplicates_among(reports, n) == 0,
    decreases n,
{
    if n > 0 {
        lemma_duplicates(reports, n - 1);
        assert(reports[n - 1] == reports[n - 1]);
    }
}

proof fn lemma_other_imports(spans: Seq<Span>, primary: int, n: int, k: int)
    requires
        0 <= k < n <= spans.len(),
        k != primary,
    ensures
        other_imports(spans, primary, n).contains(
            LabelView {
                span: spans[k],
                message: "Another imported `main` enters through this use"@,
            },
        ),
    decreases n,
{
    let labels = other_imports(spans, primary, n);
    let label = LabelView {
        span: spans[k],
        message: "Another imported `main` enters through this use"@,
    };
    if k == n - 1 {
        assert(labels[labels.len() - 1] == label);
    } else {
        lemma_other_imports(spans, primary, n - 1, k);
        let before = other_imports(spans, primary, n - 1);
        let l = choose|l: int| 0 <= l < before.len() && before[l] == label;
        assert(labels[l] == label);
    }
}

/// The documentation of a function is that of the comments right above the line it begins on.
pub proof fn law_documentation_stands_above(
    function: FunctionView,
    text: Seq<char>,
    position: crate::protocol::Position,
)
    requires
        position_of_offset(text, function.span.start as nat) == Some(position),
    ensures
        documentation_of(function, text) == join_doc_lines(doc_lines(text, position.line as nat)),
{
}

} // verus!
