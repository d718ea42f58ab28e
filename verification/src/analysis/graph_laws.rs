//! What holds of the sources of a program and of the imports between them.

use vstd::prelude::*;

use crate::analysis::entry_point::{
    all_uses, brings_main, contain_main, leads, link_of, main_imports, main_in, reached,
    source_items, source_numbered, source_uses, use_brings_main, use_leads, GraphView, ImportLink,
    ParsedView,
};
use crate::syntax::ItemView;
use crate::text::Span;

verus! {

/// Whether the source at an index is the first with its number.
pub open spec fn is_source(sources: Seq<ParsedView>, k: int, file_id: usize) -> bool {
    &&& 0 <= k < sources.len()
    &&& sources[k].file_id == file_id
    &&& forall|other: int| 0 <= other < k ==> (#[trigger] sources[other]).file_id != file_id
}

/// Whether the link at an index is the first of an import.
pub open spec fn is_link(links: Seq<ImportLink>, l: int, file_id: usize, span: Span) -> bool {
    &&& 0 <= l < links.len()
    &&& links[l].file_id == file_id
    &&& links[l].span == span
    &&& forall|other: int|
        0 <= other < l ==> (#[trigger] links[other]).file_id != file_id || links[other].span
            != span
}

/// The source with a number is the first one that has it.
pub proof fn law_source_is_found_by_its_number(
    sources: Seq<ParsedView>,
    k: int,
    file_id: usize,
)
    ensures
        is_source(sources, k, file_id) ==> source_numbered(sources, file_id) == Some(sources[k]),
        (forall|other: int|
            0 <= other < sources.len() ==> (#[trigger] sources[other]).file_id != file_id)
            ==> source_numbered(sources, file_id) is None,
    decreases sources.len(),
{
    if sources.len() > 0 {
        let rest = sources.drop_first();
        law_source_is_found_by_its_number(rest, k - 1, file_id);
        if is_source(sources, k, file_id) && k > 0 {
            assert(sources[0].file_id != file_id);
            assert(rest[k - 1] == sources[k]);
            assert forall|other: int| 0 <= other < k - 1 implies (#[trigger] rest[other]).file_id
                != file_id by {
                assert(rest[other] == sources[other + 1]);
            }
        }
        if forall|other: int|
            0 <= other < sources.len() ==> (#[trigger] sources[other]).file_id != file_id {
            assert(sources[0].file_id != file_id);
            assert forall|other: int| 0 <= other < rest.len() implies (
            #[trigger] rest[other]).file_id != file_id by {
                assert(rest[other] == sources[other + 1]);
            }
        }
    }
}

/// An import leads where its first link says, and nowhere without one.
pub proof fn law_import_leads_along_its_link(
    links: Seq<ImportLink>,
    l: int,
    file_id: usize,
    span: Span,
)
    ensures
        is_link(links, l, file_id, span) ==> link_of(links, file_id, span) == Some(
            links[l].target,
        ),
        (forall|other: int|
            0 <= other < links.len() ==> (#[trigger] links[other]).file_id != file_id
                || links[other].span != span) ==> link_of(links, file_id, span) is None,
    decreases links.len(),
{
    if links.len() > 0 {
        let rest = links.drop_first();
        law_import_leads_along_its_link(rest, l - 1, file_id, span);
        if is_link(links, l, file_id, span) && l > 0 {
            assert(links[0].file_id != file_id || links[0].span != span);
            assert(rest[l - 1] == links[l]);
            assert forall|other: int| 0 <= other < l - 1 implies (#[trigger] rest[other]).file_id
                != file_id || rest[other].span != span by {
                assert(rest[other] == links[other + 1]);
            }
        }
        if forall|other: int|
            0 <= other < links.len() ==> (#[trigger] links[other]).file_id != file_id
                || links[other].span != span {
            assert(links[0].file_id != file_id || links[0].span != span);
            assert forall|other: int| 0 <= other < rest.len() implies (
            #[trigger] rest[other]).file_id != file_id || rest[other].span != span by {
                assert(rest[other] == links[other + 1]);
            }
        }
    }
}

/// A source that can be read has the items that were read, and imports what they import. One that
/// cannot be read has none, and imports nothing.
pub proof fn law_source_has_what_was_read(graph: GraphView, k: int, file_id: usize)
    requires
        is_source(graph.sources, k, file_id),
    ensures
        source_items(graph, file_id) == graph.sources[k].items,
        graph.sources[k].items matches Some(items) ==> source_uses(graph, file_id) == all_uses(
            items,
        ) && main_in(graph, file_id) == contain_main(items),
        graph.sources[k].items is None ==> source_uses(graph, file_id).len() == 0 && !main_in(
            graph,
            file_id,
        ),
{
    law_source_is_found_by_its_number(graph.sources, k, file_id);
}

/// An import connects its source with the one that its link leads to, where that is another one and
/// can be read.
pub proof fn law_imports_connect_sources(
    graph: GraphView,
    k: int,
    l: int,
    m: int,
    i: int,
    from: usize,
    to: usize,
    items: Seq<ItemView>,
)
    requires
        is_source(graph.sources, k, from),
        graph.sources[k].items == Some(items),
        0 <= i < all_uses(items).len(),
        is_link(graph.links, l, from, all_uses(items)[i].span),
        graph.links[l].target == to,
        is_source(graph.sources, m, to),
    ensures
        use_leads(graph, from, all_uses(items)[i], to) <==> to != from
            && graph.sources[m].items is Some,
        to != from && graph.sources[m].items is Some ==> leads(graph, from, to),
{
    law_source_has_what_was_read(graph, k, from);
    law_source_has_what_was_read(graph, m, to);
    law_import_leads_along_its_link(graph.links, l, from, all_uses(items)[i].span);
    if to != from && graph.sources[m].items is Some {
        assert(use_leads(graph, from, source_uses(graph, from)[i], to));
    }
}

/// An import of the root whose source holds a `main`, or imports one that does, is among those that
/// bring one in, and every one of those is such an import.
pub proof fn law_imports_of_main_are_found(
    graph: GraphView,
    root: Seq<ItemView>,
    spans: Seq<Span>,
    i: int,
    l: int,
    m: int,
    to: usize,
    items: Seq<ItemView>,
    span: Span,
)
    requires
        main_imports(graph, root, spans),
    ensures
        0 <= i < all_uses(root).len() && is_link(graph.links, l, 0, all_uses(root)[i].span)
            && graph.links[l].target == to && to != 0 && is_source(graph.sources, m, to)
            && graph.sources[m].items == Some(items) && (contain_main(items) || brings_main(
            graph,
            to,
        )) ==> spans.contains(all_uses(root)[i].span),
        spans.contains(span) ==> exists|j: int, target: usize|
            0 <= j < all_uses(root).len() && all_uses(root)[j].span == span && target != 0
                && #[trigger] use_leads(graph, 0, all_uses(root)[j], target) && brings_main(
                graph,
                target,
            ),
{
    let uses = all_uses(root);
    if 0 <= i < uses.len() && is_link(graph.links, l, 0, uses[i].span) && graph.links[l].target
        == to && to != 0 && is_source(graph.sources, m, to) && graph.sources[m].items == Some(
        items,
    ) && (contain_main(items) || brings_main(graph, to)) {
        law_source_has_what_was_read(graph, m, to);
        law_import_leads_along_its_link(graph.links, l, 0, uses[i].span);
        if contain_main(items) {
            assert(reached(graph, to, to, 0));
        }
        assert(use_leads(graph, 0, uses[i], to));
        assert(use_brings_main(graph, uses[i]));
    }
    if spans.contains(span) {
        let j = choose|j: int|
            0 <= j < uses.len() && use_brings_main(graph, #[trigger] uses[j]) && uses[j].span
                == span;
        let target = choose|target: usize|
            #[trigger] use_leads(graph, 0, uses[j], target) && brings_main(graph, target);
        assert(use_leads(graph, 0, all_uses(root)[j], target));
    }
}

} // verus!
