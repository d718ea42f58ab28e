//! What holds of everything that an unfinished import is completed to.

use vstd::prelude::*;

use crate::analysis::resolution::{descend, module_in};
use crate::analysis::scopes::documentation_of;
use crate::compiler::{parsed, UnstableFeature};
use crate::completion::imports::candidates::{
    candidates_in, inline_module_candidates, inline_modules, public_candidates, source_candidates,
    CandidateKind, CandidateView,
};
use crate::completion::imports::context::{ContextView, QueryView};
use crate::completion::imports::search::{
    candidates_below, entry_candidates, import_candidates, in_text_order, is_offered,
    law_no_candidate_is_lost, law_offered_candidates, offered, same_label, text_before,
};
use crate::completion::types::joined;
use crate::order::{ascending, lemma_precedes_total, lemma_precedes_transitive, precedes};
use crate::paths::{path_extension, path_file_name, path_file_stem, path_join, path_starts_with};
use crate::project::disk::{DirectoryEntry, Disk, QuestionView};
use crate::project::mappings::MappingView;
use crate::project::visibility::{import_root_of, visible_aliases};
use crate::project::ContextView as ProjectView;
use crate::syntax::{ItemView, ModuleView, UseItemView};
use crate::text_map::lookup;

verus! {

/// Whether the first of some names lead through directories that are known, from one to the next.
pub open spec fn leads_through(
    disk: Disk,
    directories: Seq<Seq<char>>,
    names: Seq<Seq<char>>,
) -> bool {
    &&& 0 < directories.len() <= names.len() + 1
    &&& forall|j: int|
        0 <= j < directories.len() - 1 ==> {
            &&& directories[j + 1] == path_join(directories[j], #[trigger] names[j])
            &&& lookup(disk.directories@, directories[j + 1]) == Some(true)
        }
}

proof fn lemma_below_last(
    disk: Disk,
    root: Seq<char>,
    directories: Seq<Seq<char>>,
    names: Seq<Seq<char>>,
    document: Seq<char>,
    before_use: Seq<char>,
)
    requires
        leads_through(disk, directories, names),
    ensures
        candidates_below(disk, root, directories[0], names, document, before_use)
            == candidates_below(
            disk,
            root,
            directories.last(),
            names.skip(directories.len() - 1),
            document,
            before_use,
        ),
    decreases names.len(),
{
    if directories.len() == 1 {
        assert(names.skip(0) =~= names);
    } else {
        let further = directories.drop_first();
        let rest = names.drop_first();
        assert(directories[1] == path_join(directories[0], names[0]));
        assert forall|j: int| 0 <= j < further.len() - 1 implies {
            &&& further[j + 1] == path_join(further[j], #[trigger] rest[j])
            &&& lookup(disk.directories@, further[j + 1]) == Some(true)
        } by {
            assert(rest[j] == names[j + 1]);
            assert(directories[j + 1 + 1] == path_join(directories[j + 1], names[j + 1]));
        }
        lemma_below_last(disk, root, further, rest, document, before_use);
        assert(rest.skip(further.len() - 1) =~= names.skip(directories.len() - 1));
    }
}

/// A path whose names lead through directories, however many, and then into a source file, offers
/// exactly what the text of that file offers at the names that are left.
pub proof fn law_path_leads_into_file(
    disk: Disk,
    context: ContextView,
    source: Seq<char>,
    document: Seq<char>,
    project: ProjectView,
    segments: Seq<Seq<char>>,
    directories: Seq<Seq<char>>,
    file: Seq<char>,
    text: Option<String>,
)
    requires
        context.query == QueryView::Path(segments),
        segments.len() > 0,
        import_root_of(project, document, segments[0]) == Some(directories[0]),
        leads_through(disk, directories, segments.skip(1)),
        directories.len() < segments.len(),
        lookup(
            disk.directories@,
            path_join(directories.last(), segments[directories.len() as int]),
        ) == Some(false),
        file == path_join(directories.last(), segments[directories.len() as int] + ".simf"@),
        lookup(disk.files@, file) == Some(true),
        lookup(disk.sources@, file) == Some(text),
    ensures
        import_candidates(disk, context, source, document, project) == Ok::<
            Seq<CandidateView>,
            QuestionView,
        >(
            match text {
                Some(text) => source_candidates(text@, segments.skip(directories.len() as int + 1)),
                None => Seq::empty(),
            },
        ),
{
    let names = segments.skip(1);
    let before_use = text_before(source, context.use_start);
    assert(segments.drop_first() =~= names);
    lemma_below_last(disk, directories[0], directories, names, document, before_use);
    let rest = names.skip(directories.len() - 1);
    assert(rest[0] == segments[directories.len() as int]);
    assert(rest.drop_first() =~= segments.skip(directories.len() as int + 1));
}

/// A path whose names lead through directories alone offers what the last of them holds; behind
/// `crate` alone the modules of the document come last.
pub proof fn law_path_leads_into_directory(
    disk: Disk,
    context: ContextView,
    source: Seq<char>,
    document: Seq<char>,
    project: ProjectView,
    segments: Seq<Seq<char>>,
    directories: Seq<Seq<char>>,
    entries: Vec<DirectoryEntry>,
)
    requires
        context.query == QueryView::Path(segments),
        segments.len() > 0,
        import_root_of(project, document, segments[0]) == Some(directories[0]),
        leads_through(disk, directories, segments.skip(1)),
        directories.len() == segments.len(),
        lookup(disk.entries@, directories.last()) == Some(entries),
    ensures
        import_candidates(disk, context, source, document, project) == Ok::<
            Seq<CandidateView>,
            QuestionView,
        >(
            entry_candidates(entries@, document) + (if segments =~= seq!["crate"@] {
                inline_module_candidates(text_before(source, context.use_start))
            } else {
                Seq::empty()
            }),
        ),
{
    let names = segments.skip(1);
    let before_use = text_before(source, context.use_start);
    assert(segments.drop_first() =~= names);
    lemma_below_last(disk, directories[0], directories, names, document, before_use);
    assert(names.skip(directories.len() - 1).len() == 0);
    let held = entry_candidates(entries@, document);
    assert(held + Seq::<CandidateView>::empty() =~= held);
    if segments.len() == 1 && segments[0] == "crate"@ {
        assert(segments =~= seq!["crate"@]);
    }
}

/// A path whose first name is neither a directory nor a file of the root offers what the modules of
/// the document offer. Further down such a name offers nothing.
pub proof fn law_other_paths_lead_into_document(
    disk: Disk,
    context: ContextView,
    source: Seq<char>,
    document: Seq<char>,
    project: ProjectView,
    segments: Seq<Seq<char>>,
    directories: Seq<Seq<char>>,
)
    requires
        context.query == QueryView::Path(segments),
        segments.len() > 0,
        import_root_of(project, document, segments[0]) == Some(directories[0]),
        leads_through(disk, directories, segments.skip(1)),
        directories.len() < segments.len(),
        lookup(
            disk.directories@,
            path_join(directories.last(), segments[directories.len() as int]),
        ) == Some(false),
        lookup(
            disk.files@,
            path_join(directories.last(), segments[directories.len() as int] + ".simf"@),
        ) == Some(false),
    ensures
        directories.len() == 1 ==> import_candidates(disk, context, source, document, project)
            == Ok::<Seq<CandidateView>, QuestionView>(
            source_candidates(text_before(source, context.use_start), segments.skip(1)),
        ),
        directories.last() != directories[0] ==> import_candidates(
            disk,
            context,
            source,
            document,
            project,
        ) == Ok::<Seq<CandidateView>, QuestionView>(Seq::empty()),
{
    let names = segments.skip(1);
    let before_use = text_before(source, context.use_start);
    assert(segments.drop_first() =~= names);
    lemma_below_last(disk, directories[0], directories, names, document, before_use);
    let rest = names.skip(directories.len() - 1);
    assert(rest[0] == segments[directories.len() as int]);
    if directories.len() == 1 {
        assert(rest =~= names);
    }
}

/// Behind a name that means no directory, and where a declaration cannot be finished, nothing is
/// offered.
pub proof fn law_unknown_names_offer_nothing(
    disk: Disk,
    context: ContextView,
    source: Seq<char>,
    document: Seq<char>,
    project: ProjectView,
)
    requires
        context.query is Suppressed || (context.query matches QueryView::Path(segments)
            && segments.len() > 0 && import_root_of(project, document, segments[0]) is None),
    ensures
        import_candidates(disk, context, source, document, project) == Ok::<
            Seq<CandidateView>,
            QuestionView,
        >(Seq::empty()),
{
}

/// What a directory holds is offered in its order: a directory by its name and a source by its
/// name without the ending, where the name can be imported. The document itself is left out.
pub proof fn law_entries_are_offered(
    entries: Seq<DirectoryEntry>,
    entry: DirectoryEntry,
    document: Seq<char>,
    name: Seq<char>,
)
    ensures
        entry_candidates(Seq::empty(), document).len() == 0,
        entry.canonical@ != document && entry.is_directory && path_file_name(entry.path@) == Some(
            name,
        ) && can_be_imported(name) ==> entry_candidates(entries.push(entry), document)
            == entry_candidates(entries, document).push(
            CandidateView {
                name,
                kind: CandidateKind::Module,
                detail: "Module directory `"@ + entry.path@ + "`"@,
                documentation: None,
            },
        ),
        entry.canonical@ != document && !entry.is_directory && path_extension(entry.path@) == Some(
            "simf"@,
        ) && path_file_stem(entry.path@) == Some(name) && can_be_imported(name)
            ==> entry_candidates(entries.push(entry), document) == entry_candidates(
            entries,
            document,
        ).push(
            CandidateView {
                name,
                kind: CandidateKind::Module,
                detail: "Module file `"@ + entry.path@ + "`"@,
                documentation: None,
            },
        ),
        entry.canonical@ == document || (!entry.is_directory && path_extension(entry.path@) != Some(
            "simf"@,
        )) || (entry.is_directory && (path_file_name(entry.path@) matches Some(other)
            ==> !can_be_imported(other))) || (!entry.is_directory && (path_file_stem(
            entry.path@,
        ) matches Some(other) ==> !can_be_imported(other))) ==> entry_candidates(
            entries.push(entry),
            document,
        ) == entry_candidates(entries, document),
{
    assert(entries.push(entry).drop_last() =~= entries);
}

/// Whether a name is written as an identifier, and is none of the words of the language.
pub open spec fn can_be_imported(name: Seq<char>) -> bool {
    &&& name.len() > 0
    &&& !('0' <= name[0] <= '9')
    &&& forall|i: int|
        0 <= i < name.len() ==> {
            let c = #[trigger] name[i];
            'a' <= c <= 'z' || 'A' <= c <= 'Z' || c == '_' || '0' <= c <= '9'
        }
    &&& !crate::lexer::keywords().contains(name)
}

/// A source offers the public items of the module that some names lead to: those of the whole source
/// where there are none, and those of the first module of a name where there is one.
pub proof fn law_source_offers_its_modules(
    source: Seq<char>,
    items: Seq<ItemView>,
    i: int,
    module: ModuleView,
    names: Seq<Seq<char>>,
)
    requires
        parsed(0, source, seq![UnstableFeature::Imports, UnstableFeature::Enums]).0 == Some(items),
    ensures
        source_candidates(source, Seq::empty()) == public_candidates(items, source),
        0 <= i < items.len() && items[i] == ItemView::Module(module) && (forall|k: int|
            0 <= k < i ==> !(#[trigger] items[k] matches ItemView::Module(other) && other.name
                == module.name)) ==> source_candidates(source, seq![module.name] + names)
            == candidates_in(module.items, source, names),
        candidates_in(items, source, Seq::empty()) == public_candidates(items, source),
        (forall|k: int|
            0 <= k < items.len() ==> !(#[trigger] items[k] matches ItemView::Module(other)
                && names.len() > 0 && other.name == names[0])) && names.len() > 0
            ==> source_candidates(source, names).len() == 0,
{
    let path = seq![module.name] + names;
    assert(path.drop_first() =~= names);
    lemma_module_in(items, module.name);
    if names.len() > 0 {
        lemma_module_in(items, names[0]);
    }
    if 0 <= i < items.len() && items[i] == ItemView::Module(module) && (forall|k: int|
        0 <= k < i ==> !(#[trigger] items[k] matches ItemView::Module(other) && other.name
            == module.name)) {
        lemma_first_module(items, i, module);
    }
}

/// The modules of a module are reached by their names, as those of a source are.
pub proof fn law_modules_lead_into_modules(
    items: Seq<ItemView>,
    text: Seq<char>,
    i: int,
    module: ModuleView,
    names: Seq<Seq<char>>,
)
    requires
        0 <= i < items.len(),
        items[i] == ItemView::Module(module),
        forall|k: int|
            0 <= k < i ==> !(#[trigger] items[k] matches ItemView::Module(other) && other.name
                == module.name),
    ensures
        candidates_in(items, text, seq![module.name] + names) == candidates_in(
            module.items,
            text,
            names,
        ),
        descend(items, seq![module.name] + names) == descend(module.items, names),
{
    assert((seq![module.name] + names).drop_first() =~= names);
    lemma_first_module(items, i, module);
}

proof fn lemma_module_in(items: Seq<ItemView>, name: Seq<char>)
    ensures
        module_in(items, name) matches Some(module) ==> exists|k: int|
            0 <= k < items.len() && #[trigger] items[k] == ItemView::Module(module) && module.name
                == name,
    decreases items.len(),
{
    if items.len() > 0 {
        lemma_module_in(items.drop_first(), name);
        if let Some(module) = module_in(items, name) {
            if items[0] != ItemView::Module(module) {
                let rest = items.drop_first();
                let k = choose|k: int|
                    0 <= k < rest.len() && #[trigger] rest[k] == ItemView::Module(module)
                        && module.name == name;
                assert(items[k + 1] == rest[k]);
            }
        }
    }
}

proof fn lemma_first_module(items: Seq<ItemView>, i: int, module: ModuleView)
    requires
        0 <= i < items.len(),
        items[i] == ItemView::Module(module),
        forall|k: int|
            0 <= k < i ==> !(#[trigger] items[k] matches ItemView::Module(other) && other.name
                == module.name),
    ensures
        module_in(items, module.name) == Some(module),
    decreases items.len(),
{
    if i > 0 {
        let rest = items.drop_first();
        assert(!(items[0] matches ItemView::Module(other) && other.name == module.name));
        assert(rest[i - 1] == items[i]);
        assert forall|k: int| 0 <= k < i - 1 implies !(#[trigger] rest[k] matches ItemView::Module(
            other,
        ) && other.name == module.name) by {
            assert(rest[k] == items[k + 1]);
        }
        lemma_first_module(rest, i - 1, module);
    }
}

/// Items offer their public names in their order, each with its kind and with how it is declared;
/// what is private offers nothing.
pub proof fn law_public_items_are_offered(items: Seq<ItemView>, item: ItemView, text: Seq<char>)
    ensures
        public_candidates(Seq::empty(), text).len() == 0,
        public_candidates(items.push(item), text) == public_candidates(items, text) + (match item {
            ItemView::Function(function) => if function.public {
                seq![
                    CandidateView {
                        name: function.name,
                        kind: CandidateKind::Function,
                        detail: "fn("@ + joined(function.params, ", "@) + ") -> "@ + (
                        match function.ret {
                            Some(ty) => ty,
                            None => "()"@,
                        }),
                        documentation: if documentation_of(function, text).len() == 0 {
                            None
                        } else {
                            Some(documentation_of(function, text))
                        },
                    },
                ]
            } else {
                Seq::empty()
            },
            ItemView::TypeAlias(alias) => if alias.public {
                seq![
                    CandidateView {
                        name: alias.name,
                        kind: CandidateKind::TypeParameter,
                        detail: "type "@ + alias.name + " = "@ + alias.ty,
                        documentation: None,
                    },
                ]
            } else {
                Seq::empty()
            },
            ItemView::EnumDeclaration(declaration) => if declaration.public {
                seq![
                    CandidateView {
                        name: declaration.name,
                        kind: CandidateKind::Enum,
                        detail: "enum "@ + declaration.name,
                        documentation: None,
                    },
                ]
            } else {
                Seq::empty()
            },
            ItemView::Module(module) => if module.public {
                seq![
                    CandidateView {
                        name: module.name,
                        kind: CandidateKind::Module,
                        detail: "Public inline module"@,
                        documentation: None,
                    },
                ]
            } else {
                Seq::empty()
            },
            ItemView::Use(declaration) => if declaration.public {
                declaration.items.map_values(
                    |item: UseItemView|
                        CandidateView {
                            name: match item.alias {
                                Some(alias) => alias,
                                None => item.name,
                            },
                            kind: CandidateKind::Reference,
                            detail: "Public re-export"@,
                            documentation: None,
                        },
                )
            } else {
                Seq::empty()
            },
            ItemView::Ignored => Seq::empty(),
        }),
{
    assert(items.push(item).drop_last() =~= items);
    if let ItemView::Use(declaration) = item {
        if declaration.public {
            assert(crate::completion::imports::candidates::exports(declaration.items)
                =~= declaration.items.map_values(
                |item: UseItemView|
                    CandidateView {
                        name: match item.alias {
                            Some(alias) => alias,
                            None => item.name,
                        },
                        kind: CandidateKind::Reference,
                        detail: "Public re-export"@,
                        documentation: None,
                    },
            ));
        }
    }
}

/// The modules of a source are offered in their order, public or not.
pub proof fn law_inline_modules_are_offered(
    source: Seq<char>,
    items: Seq<ItemView>,
    more: Seq<ItemView>,
    item: ItemView,
)
    ensures
        parsed(0, source, seq![UnstableFeature::Imports, UnstableFeature::Enums]).0 == Some(items)
            ==> inline_module_candidates(source) == inline_modules(items),
        parsed(0, source, seq![UnstableFeature::Imports, UnstableFeature::Enums]).0 is None
            ==> inline_module_candidates(source).len() == 0,
        inline_modules(Seq::empty()).len() == 0,
        inline_modules(more.push(item)) == (match item {
            ItemView::Module(module) => inline_modules(more).push(
                CandidateView {
                    name: module.name,
                    kind: CandidateKind::Module,
                    detail: "Inline module"@,
                    documentation: None,
                },
            ),
            _ => inline_modules(more),
        }),
{
    assert(more.push(item).drop_last() =~= more);
}

/// What is offered of some candidates begins with what is typed and is not imported already; of
/// those nothing is lost, no name comes twice with the same detail, and the names are in order.
pub proof fn law_offered_names_go_on_from_what_is_typed(
    candidates: Seq<CandidateView>,
    partial: Seq<char>,
    imported: Set<Seq<char>>,
    i: int,
    j: int,
)
    ensures
        ({
            let list = offered(candidates, partial, imported);
            &&& 0 <= i < list.len() ==> {
                &&& candidates.contains(list[i])
                &&& partial.is_prefix_of(list[i].name)
                &&& !imported.contains(list[i].name)
            }
            &&& 0 <= i < j < list.len() ==> precedes(list[i].name, list[j].name) || (list[i].name
                == list[j].name && precedes(list[i].detail, list[j].detail))
        }),
        0 <= j < candidates.len() && partial.is_prefix_of(candidates[j].name) && !imported.contains(
            candidates[j].name,
        ) ==> exists|k: int|
            0 <= k < offered(candidates, partial, imported).len() && (#[trigger] offered(
                candidates,
                partial,
                imported,
            )[k]).name == candidates[j].name && offered(candidates, partial, imported)[k].detail
                == candidates[j].detail,
{
    let list = offered(candidates, partial, imported);
    if 0 <= i < list.len() {
        assert(list.contains(list[i]));
        law_offered_candidates(candidates, partial, imported, list[i]);
    }
    if 0 <= j < candidates.len() && is_offered(candidates[j], partial, imported) {
        law_no_candidate_is_lost(candidates, partial, imported, j);
        let k = choose|k: int|
            0 <= k < list.len() && same_label(#[trigger] list[k], candidates[j]);
        assert(list[k].name == candidates[j].name);
    }
}

/// A text has a place in every list that is in order.
proof fn lemma_texts_in_order(list: Seq<Seq<char>>, text: Seq<char>)
    requires
        ascending(list),
    ensures
        exists|after: Seq<Seq<char>>|
            #[trigger] ascending(after) && after.to_set() == list.to_set().insert(text),
    decreases list.len(),
{
    let wanted = list.to_set().insert(text);
    if list.contains(text) {
        assert(wanted =~= list.to_set());
        assert(ascending(list));
    } else if list.len() == 0 || precedes(list.last(), text) {
        let after = list.push(text);
        assert forall|i: int, j: int| 0 <= i < j < after.len() implies precedes(
            #[trigger] after[i],
            #[trigger] after[j],
        ) by {
            if j == list.len() {
                if i < list.len() - 1 {
                    assert(precedes(list[i], list[list.len() - 1]));
                    lemma_precedes_transitive(list[i], list.last(), text);
                }
            } else {
                assert(precedes(list[i], list[j]));
            }
        }
        lemma_pushed_set(list, text);
        assert(ascending(after));
    } else {
        let rest = list.drop_last();
        let last = list.last();
        assert forall|i: int, j: int| 0 <= i < j < rest.len() implies precedes(
            #[trigger] rest[i],
            #[trigger] rest[j],
        ) by {
            assert(precedes(list[i], list[j]));
        }
        lemma_texts_in_order(rest, text);
        let inner = choose|inner: Seq<Seq<char>>|
            #[trigger] ascending(inner) && inner.to_set() == rest.to_set().insert(text);
        let after = inner.push(last);
        assert(list[list.len() - 1] == last);
        assert(text != last);
        lemma_precedes_total(last, text);
        assert forall|i: int, j: int| 0 <= i < j < after.len() implies precedes(
            #[trigger] after[i],
            #[trigger] after[j],
        ) by {
            if j == inner.len() {
                assert(inner.to_set().contains(inner[i]));
                if inner[i] != text {
                    assert(rest.contains(inner[i]));
                    let k = choose|k: int| 0 <= k < rest.len() && rest[k] == inner[i];
                    assert(precedes(list[k], list[list.len() - 1]));
                }
            } else {
                assert(precedes(inner[i], inner[j]));
            }
        }
        lemma_pushed_set(inner, last);
        lemma_pushed_set(rest, last);
        assert(rest.push(last) =~= list);
        assert(after.to_set() =~= wanted);
        assert(ascending(after));
    }
}

proof fn lemma_pushed_set(list: Seq<Seq<char>>, text: Seq<char>)
    ensures
        list.push(text).to_set() == list.to_set().insert(text),
{
    let after = list.push(text);
    assert forall|other: Seq<char>| #[trigger] after.to_set().contains(other)
        == list.to_set().insert(text).contains(other) by {
        if after.contains(other) {
            let k = choose|k: int| 0 <= k < after.len() && after[k] == other;
            if k < list.len() {
                assert(list[k] == other);
            }
        }
        if list.contains(other) {
            let k = choose|k: int| 0 <= k < list.len() && list[k] == other;
            assert(after[k] == other);
        }
        if other == text {
            assert(after[list.len() as int] == other);
        }
    }
    assert(after.to_set() =~= list.to_set().insert(text));
}

/// The aliases that are seen from a document have an order.
proof fn lemma_aliases_in_order(mappings: Seq<MappingView>, document: Seq<char>)
    ensures
        exists|list: Seq<Seq<char>>|
            #[trigger] ascending(list) && list.to_set() == visible_aliases(mappings, document),
    decreases mappings.len(),
{
    let all = visible_aliases(mappings, document);
    if mappings.len() == 0 {
        let none = Seq::<Seq<char>>::empty();
        assert(none.to_set() =~= all);
        assert(ascending(none));
    } else {
        let rest = mappings.drop_last();
        let last = mappings.last();
        let fewer = visible_aliases(rest, document);
        lemma_aliases_in_order(rest, document);
        let list = choose|list: Seq<Seq<char>>|
            #[trigger] ascending(list) && list.to_set() == fewer;
        lemma_texts_in_order(list, last.alias);
        let seen = path_starts_with(document, last.context);
        assert forall|alias: Seq<char>| #[trigger] all.contains(alias) == (fewer.contains(alias) || (
        seen && alias == last.alias)) by {
            if all.contains(alias) {
                let k = choose|k: int|
                    0 <= k < mappings.len() && crate::project::visibility::is_visible_as(
                        #[trigger] mappings[k],
                        document,
                        alias,
                    );
                if k < rest.len() {
                    assert(rest[k] == mappings[k]);
                }
            }
            if fewer.contains(alias) {
                let k = choose|k: int|
                    0 <= k < rest.len() && crate::project::visibility::is_visible_as(
                        #[trigger] rest[k],
                        document,
                        alias,
                    );
                assert(mappings[k] == rest[k]);
            }
            if seen && alias == last.alias {
                assert(mappings[mappings.len() - 1] == last);
            }
        }
        if seen {
            assert(all =~= fewer.insert(last.alias));
        } else {
            assert(all =~= fewer);
        }
    }
}

/// A path can begin with `crate`, which comes first, and with every alias of a mapping that is seen
/// from the document and with no other name. The aliases are in order, and none comes twice.
pub proof fn law_paths_begin_with_what_is_seen(
    disk: Disk,
    context: ContextView,
    source: Seq<char>,
    document: Seq<char>,
    project: ProjectView,
    m: int,
    i: int,
    j: int,
)
    requires
        context.query is Roots,
    ensures
        match import_candidates(disk, context, source, document, project) {
            Ok(list) => {
                &&& list.len() > 0
                &&& list[0].name == "crate"@
                &&& list[0].kind == CandidateKind::Module
                &&& 0 <= m < project.dependencies.len() && path_starts_with(
                    document,
                    project.dependencies[m].context,
                ) ==> exists|k: int|
                    0 < k < list.len() && (#[trigger] list[k]).name
                        == project.dependencies[m].alias
                &&& 0 < i < list.len() ==> list[i].kind == CandidateKind::Module && exists|k: int|
                    0 <= k < project.dependencies.len() && path_starts_with(
                        document,
                        (#[trigger] project.dependencies[k]).context,
                    ) && project.dependencies[k].alias == list[i].name
                &&& 0 < i < list.len() ==> (import_root_of(
                    project,
                    document,
                    list[i].name,
                ) matches Some(root) ==> list[i].detail == "Project dependency `"@ + root + "`"@)
                &&& 0 < i < j < list.len() ==> precedes(list[i].name, list[j].name)
            },
            Err(_) => false,
        },
{
    let seen = visible_aliases(project.dependencies, document);
    lemma_aliases_in_order(project.dependencies, document);
    let some = choose|list: Seq<Seq<char>>| #[trigger] ascending(list) && list.to_set() == seen;
    assert(ascending(some) && some.to_set() == seen);
    let aliases = in_text_order(seen);
    assert(ascending(aliases) && aliases.to_set() == seen);
    let list = import_candidates(disk, context, source, document, project)->Ok_0;
    assert(list.len() == aliases.len() + 1);
    assert forall|k: int| 0 < k < list.len() implies (#[trigger] list[k]).name == aliases[k - 1]
        && list[k].kind == CandidateKind::Module by {}
    if 0 <= m < project.dependencies.len() && path_starts_with(
        document,
        project.dependencies[m].context,
    ) {
        let alias = project.dependencies[m].alias;
        assert(crate::project::visibility::is_visible_as(
            project.dependencies[m],
            document,
            alias,
        ));
        assert(seen.contains(alias));
        assert(aliases.to_set().contains(alias));
        let k = choose|k: int| 0 <= k < aliases.len() && aliases[k] == alias;
        assert(list[k + 1].name == alias);
    }
    if 0 < i < list.len() {
        assert(list[i].name == aliases[i - 1]);
        assert(aliases.to_set().contains(aliases[i - 1]));
        assert(seen.contains(list[i].name));
        let k = choose|k: int|
            0 <= k < project.dependencies.len() && crate::project::visibility::is_visible_as(
                #[trigger] project.dependencies[k],
                document,
                list[i].name,
            );
        assert(project.dependencies[k].alias == list[i].name);
        if i < j < list.len() {
            assert(list[j].name == aliases[j - 1]);
            assert(precedes(aliases[i - 1], aliases[j - 1]));
        }
    }
}

} // verus!
