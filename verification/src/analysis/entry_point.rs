//! Entry points: the `main` that the compiler wants, and the `main` that comes in with an import.

use vstd::prelude::*;

use crate::analysis::sources::CompilerSource;
use crate::chars::{join2, same};
use crate::compiler::{parse_program, parsed, UnstableFeature};
use crate::report::{
    copy_labels, copy_reports, label_views, report_views, CompilerDiagnostic, ErrorKind,
    ErrorKindView, Label, LabelView, Place, ReportView,
};
use crate::syntax::{
    copy_opt_text, copy_texts, item_view, item_views, lemma_item_views, Item, ItemView, Program, UseDecl, UseView,
};
use crate::text::Span;

verus! {

broadcast use lemma_item_views;

/// Whether some items hold a function `main`, those inside of modules included.
pub open spec fn contain_main(items: Seq<ItemView>) -> bool
    decreases items,
{
    items.len() > 0 && (contain_main(items.drop_last()) || match items.last() {
        ItemView::Function(function) => function.name == "main"@,
        ItemView::Module(module) => contain_main(module.items),
        _ => false,
    })
}

pub fn items_contain_main(items: &Vec<Item>) -> (r: bool)
    ensures
        r == contain_main(item_views(items@)),
    decreases items@,
{
    let ghost shown = item_views(items@);
    let mut found: bool = false;
    let mut i: usize = 0;
    while i < items.len()
        invariant
            i <= items@.len(),
            shown == item_views(items@),
            found == contain_main(shown.take(i as int)),
        decreases items@.len() - i,
    {
        assert(shown.take(i + 1).drop_last() == shown.take(i as int));
        assert(shown.take(i + 1).last() == item_view(items@[i as int]));
        match &items[i] {
            Item::Function(function) => {
                found = found || same(function.name.as_str(), "main");
            },
            Item::Module(module) => {
                proof {
                    let item = items@[i as int];
                    assert(decreases_to!(items@ => item));
                    assert(decreases_to!(item => item->Module_0));
                    assert(decreases_to!(item->Module_0 => item->Module_0.items));
                    assert(decreases_to!(item->Module_0.items => item->Module_0.items@));
                }
                let inner: bool = items_contain_main(&module.items);
                found = found || inner;
            },
            _ => {},
        }
        i = i + 1;
    }
    assert(shown.take(i as int) == shown);
    found
}

/// The text that the compiler gets for a source: the source itself where it has a `main`, and else
/// the source with an empty `main` behind it.
pub open spec fn compiler_text(items: Seq<ItemView>, source: Seq<char>) -> Seq<char> {
    if contain_main(items) {
        source
    } else {
        source + "\nfn main() {}\n"@
    }
}

/// The text that the compiler gets for a source. The compiler wants an entry point, and editors also
/// open libraries.
pub fn compiler_source(program: &Program, source: &str) -> (r: String)
    ensures
        r@ == compiler_text(program@, source@),
{
    if items_contain_main(&program.items) {
        source.to_owned()
    } else {
        join2(source, "\nfn main() {}\n")
    }
}

/// What the compiler gets begins with the source, so that every offset into the source means the
/// same in both, and nothing is added to a source that has a `main`.
pub proof fn law_offsets_stay(items: Seq<ItemView>, source: Seq<char>)
    ensures
        source.is_prefix_of(compiler_text(items, source)),
        contain_main(items) ==> compiler_text(items, source) == source,
{
    assert(compiler_text(items, source).subrange(0, source.len() as int) =~= source);
}

/// The imports among some items, those inside of modules included, in the order of the text.
pub open spec fn all_uses(items: Seq<ItemView>) -> Seq<UseView>
    decreases items,
{
    if items.len() == 0 {
        Seq::empty()
    } else {
        let before = all_uses(items.drop_last());
        match items.last() {
            ItemView::Use(declaration) => before.push(declaration),
            ItemView::Module(module) => before + all_uses(module.items),
            _ => before,
        }
    }
}

/// What a list of imports says.
pub open spec fn use_views(uses: Seq<UseDecl>) -> Seq<UseView> {
    Seq::new(uses.len(), |i: int| uses[i]@)
}

/// Adds the imports among some items to a list.
pub fn collect_use_declarations(items: &Vec<Item>, declarations: &mut Vec<UseDecl>)
    ensures
        use_views(final(declarations)@) == use_views(old(declarations)@) + all_uses(
            item_views(items@),
        ),
    decreases items@,
{
    let ghost shown = item_views(items@);
    let ghost start = use_views(declarations@);
    let mut i: usize = 0;
    assert(use_views(declarations@) =~= start + all_uses(shown.take(0)));
    while i < items.len()
        invariant
            i <= items@.len(),
            shown == item_views(items@),
            use_views(declarations@) == start + all_uses(shown.take(i as int)),
        decreases items@.len() - i,
    {
        assert(shown.take(i + 1).drop_last() == shown.take(i as int));
        assert(shown.take(i + 1).last() == item_view(items@[i as int]));
        let ghost before = declarations@;
        match &items[i] {
            Item::Use(declaration) => {
                let copied: UseDecl = declaration.copy();
                declarations.push(copied);
                assert(use_views(declarations@) =~= use_views(before).push(declaration@));
                assert(use_views(declarations@) =~= start + all_uses(shown.take(i + 1)));
            },
            Item::Module(module) => {
                proof {
                    let item = items@[i as int];
                    assert(decreases_to!(items@ => item));
                    assert(decreases_to!(item => item->Module_0));
                    assert(decreases_to!(item->Module_0 => item->Module_0.items));
                    assert(decreases_to!(item->Module_0.items => item->Module_0.items@));
                }
                collect_use_declarations(&module.items, declarations);
                assert(use_views(declarations@) =~= start + all_uses(shown.take(i + 1)));
            },
            _ => {},
        }
        i = i + 1;
    }
    assert(shown.take(i as int) == shown);
}

/// Where an import of a source leads: to the source with the number `target`.
#[derive(Clone, Copy, Debug, PartialEq, Eq, Structural)]
pub struct ImportLink {
    pub file_id: usize,
    pub span: Span,
    pub target: usize,
}

/// The sources of a program and how their imports connect them.
#[derive(Debug)]
pub struct ImportGraph {
    pub sources: Vec<CompilerSource>,
    pub links: Vec<ImportLink>,
    pub features: Vec<UnstableFeature>,
}

/// A source and what it holds, where it can be read without an error.
#[derive(Debug)]
pub struct ParsedSource {
    pub file_id: usize,
    pub program: Option<Program>,
}

/// What the sources of a program hold, and how their imports connect them.
#[derive(Debug)]
pub struct ParsedGraph {
    pub sources: Vec<ParsedSource>,
    pub links: Vec<ImportLink>,
}

/// What a [`ParsedSource`] says.
#[verifier::ext_equal]
pub struct ParsedView {
    pub file_id: usize,
    pub items: Option<Seq<ItemView>>,
}

/// What a [`ParsedGraph`] says.
#[verifier::ext_equal]
pub struct GraphView {
    pub sources: Seq<ParsedView>,
    pub links: Seq<ImportLink>,
}

impl View for ParsedSource {
    type V = ParsedView;

    open spec fn view(&self) -> ParsedView {
        ParsedView {
            file_id: self.file_id,
            items: match self.program {
                Some(program) => Some(program@),
                None => None,
            },
        }
    }
}

impl View for ParsedGraph {
    type V = GraphView;

    open spec fn view(&self) -> GraphView {
        GraphView {
            sources: Seq::new(self.sources@.len(), |i: int| self.sources@[i]@),
            links: self.links@,
        }
    }
}

/// What some sources hold.
pub open spec fn parsed_graph(graph: ImportGraph) -> GraphView {
    GraphView {
        sources: Seq::new(
            graph.sources@.len(),
            |i: int|
                ParsedView {
                    file_id: graph.sources@[i].file_id,
                    items: parsed(
                        graph.sources@[i].file_id as nat,
                        graph.sources@[i].content@,
                        graph.features@,
                    ).0,
                },
        ),
        links: graph.links@,
    }
}

impl ImportGraph {
    /// Reads the sources.
    pub fn parse(&self) -> (r: ParsedGraph)
        ensures
            r@ == parsed_graph(*self),
    {
        let mut sources: Vec<ParsedSource> = Vec::new();
        let mut i: usize = 0;
        while i < self.sources.len()
            invariant
                i <= self.sources@.len(),
                sources@.len() == i,
                forall|k: int|
                    0 <= k < i ==> (#[trigger] sources@[k])@ == parsed_graph(*self).sources[k],
            decreases self.sources@.len() - i,
        {
            let source: &CompilerSource = &self.sources[i];
            let program: Option<Program> = parse_program(
                source.file_id,
                source.content.as_str(),
                &self.features,
            ).0;
            sources.push(ParsedSource { file_id: source.file_id, program });
            i = i + 1;
        }
        let r = ParsedGraph { sources, links: copy_links(&self.links) };
        assert(r@ =~= parsed_graph(*self));
        r
    }
}

/// A list of links like another.
fn copy_links(links: &Vec<ImportLink>) -> (r: Vec<ImportLink>)
    ensures
        r@ == links@,
{
    let mut r: Vec<ImportLink> = Vec::new();
    let mut i: usize = 0;
    while i < links.len()
        invariant
            i <= links@.len(),
            r@ == links@.take(i as int),
        decreases links@.len() - i,
    {
        r.push(links[i]);
        assert(r@ =~= links@.take(i + 1));
        i = i + 1;
    }
    assert(links@.take(i as int) == links@);
    r
}

/// The first source with a number.
pub open spec fn source_numbered(sources: Seq<ParsedView>, file_id: usize) -> Option<ParsedView>
    decreases sources.len(),
{
    if sources.len() == 0 {
        None
    } else if sources[0].file_id == file_id {
        Some(sources[0])
    } else {
        source_numbered(sources.drop_first(), file_id)
    }
}

/// The items of a source, where it can be read without an error.
pub open spec fn source_items(graph: GraphView, file_id: usize) -> Option<Seq<ItemView>> {
    match source_numbered(graph.sources, file_id) {
        Some(source) => source.items,
        None => None,
    }
}

/// Where the import at a span of a source leads.
pub open spec fn link_of(links: Seq<ImportLink>, file_id: usize, span: Span) -> Option<usize>
    decreases links.len(),
{
    if links.len() == 0 {
        None
    } else if links[0].file_id == file_id && links[0].span == span {
        Some(links[0].target)
    } else {
        link_of(links.drop_first(), file_id, span)
    }
}

/// Whether an import of a source leads to another source that can be read.
pub open spec fn use_leads(
    graph: GraphView,
    file_id: usize,
    declaration: UseView,
    to: usize,
) -> bool {
    link_of(graph.links, file_id, declaration.span) == Some(to) && to != file_id && source_items(
        graph,
        to,
    ) is Some
}

/// The imports of a source.
pub open spec fn source_uses(graph: GraphView, file_id: usize) -> Seq<UseView> {
    match source_items(graph, file_id) {
        Some(items) => all_uses(items),
        None => Seq::empty(),
    }
}

/// Whether a source imports another one that can be read.
pub open spec fn leads(graph: GraphView, from: usize, to: usize) -> bool {
    exists|i: int|
        0 <= i < source_uses(graph, from).len() && use_leads(
            graph,
            from,
            #[trigger] source_uses(graph, from)[i],
            to,
        )
}

/// Whether a source holds a `main`.
pub open spec fn main_in(graph: GraphView, file_id: usize) -> bool {
    match source_items(graph, file_id) {
        Some(items) => contain_main(items),
        None => false,
    }
}

/// Whether `to` is reached from `from` along at most `steps` imports.
pub open spec fn reached(graph: GraphView, from: usize, to: usize, steps: nat) -> bool
    decreases steps,
{
    from == to || (steps > 0 && exists|next: usize| #[trigger]
        leads(graph, from, next) && reached(graph, next, to, (steps - 1) as nat))
}

/// Whether a source, or one that it imports directly or through others, holds a `main`.
pub open spec fn brings_main(graph: GraphView, file_id: usize) -> bool {
    exists|to: usize, steps: nat| #[trigger] reached(graph, file_id, to, steps) && main_in(graph, to)
}

/// Whether each number is that of a source, and none occurs twice.
spec fn known_sources(sources: Seq<ParsedView>, visited: Seq<usize>) -> bool {
    &&& visited.no_duplicates()
    &&& forall|i: int| 0 <= i < visited.len() ==> source_numbered(sources, #[trigger] visited[i]) is Some
}

proof fn lemma_content_index(sources: Seq<ParsedView>, file_id: usize)
    requires
        source_numbered(sources, file_id) is Some,
    ensures
        exists|i: int| 0 <= i < sources.len() && sources[i].file_id == file_id,
    decreases sources.len(),
{
    if sources[0].file_id != file_id {
        lemma_content_index(sources.drop_first(), file_id);
        let rest = sources.drop_first();
        let i = choose|i: int| 0 <= i < rest.len() && rest[i].file_id == file_id;
        assert(sources[i + 1].file_id == file_id);
    }
}

/// There are no more different known numbers than there are sources.
proof fn lemma_visited_bound(sources: Seq<ParsedView>, visited: Seq<usize>)
    requires
        known_sources(sources, visited),
    ensures
        visited.len() <= sources.len(),
{
    let ids = Seq::new(sources.len(), |i: int| sources[i].file_id);
    assert(visited.to_set().subset_of(ids.to_set())) by {
        assert forall|id: usize| visited.to_set().contains(id) implies ids.to_set().contains(id) by {
            let i = choose|i: int| 0 <= i < visited.len() && visited[i] == id;
            assert(source_numbered(sources, visited[i]) is Some);
            lemma_content_index(sources, id);
            let k = choose|k: int| 0 <= k < sources.len() && sources[k].file_id == id;
            assert(ids[k] == id);
        }
    }
    visited.unique_seq_to_set();
    ids.lemma_cardinality_of_set();
    vstd::set_lib::lemma_len_subset(visited.to_set(), ids.to_set());
}

/// The items of a source, where it can be read without an error.
fn read_source(graph: &ParsedGraph, file_id: usize) -> (r: Option<&Program>)
    ensures
        match r {
            Some(program) => source_items(graph@, file_id) == Some(program@),
            None => source_items(graph@, file_id) is None,
        },
{
    let ghost shown = graph@.sources;
    let mut i: usize = 0;
    assert(shown.skip(0) == shown);
    while i < graph.sources.len()
        invariant
            i <= graph@.sources.len(),
            shown == graph@.sources,
            source_numbered(shown, file_id) == source_numbered(shown.skip(i as int), file_id),
        decreases graph@.sources.len() - i,
    {
        assert(shown.skip(i as int)[0] == graph.sources@[i as int]@);
        assert(shown.skip(i as int).drop_first() == shown.skip(i + 1));
        if graph.sources[i].file_id == file_id {
            return match &graph.sources[i].program {
                Some(program) => Some(program),
                None => None,
            };
        }
        i = i + 1;
    }
    None
}

/// Where the import at a span of a source leads.
fn find_link(graph: &ParsedGraph, file_id: usize, span: Span) -> (r: Option<usize>)
    ensures
        r == link_of(graph.links@, file_id, span),
{
    let mut i: usize = 0;
    assert(graph.links@.skip(0) == graph.links@);
    while i < graph.links.len()
        invariant
            i <= graph.links@.len(),
            link_of(graph.links@, file_id, span) == link_of(
                graph.links@.skip(i as int),
                file_id,
                span,
            ),
        decreases graph.links@.len() - i,
    {
        assert(graph.links@.skip(i as int)[0] == graph.links@[i as int]);
        assert(graph.links@.skip(i as int).drop_first() == graph.links@.skip(i + 1));
        if graph.links[i].file_id == file_id && graph.links[i].span == span {
            return Some(graph.links[i].target);
        }
        i = i + 1;
    }
    None
}

/// Whether everything that was added to `before` holds no `main` and leads nowhere else.
spec fn searched(graph: GraphView, before: Seq<usize>, after: Seq<usize>) -> bool {
    forall|x: usize| #[trigger] after.contains(x) && !before.contains(x) ==> settled(graph, after, x)
}

/// Whether a source holds no `main` and leads only to the given ones.
spec fn settled(graph: GraphView, within: Seq<usize>, x: usize) -> bool {
    !main_in(graph, x) && forall|y: usize| #[trigger] leads(graph, x, y) ==> within.contains(y)
}

/// Whether a list of numbers holds one.
fn contains_id(list: &Vec<usize>, id: usize) -> (r: bool)
    ensures
        r == list@.contains(id),
{
    let mut i: usize = 0;
    while i < list.len()
        invariant
            i <= list@.len(),
            forall|k: int| 0 <= k < i ==> list@[k] != id,
        decreases list@.len() - i,
    {
        if list[i] == id {
            return true;
        }
        i = i + 1;
    }
    false
}

/// One more import in front of a chain of them.
proof fn lemma_reached_step(graph: GraphView, from: usize, next: usize)
    requires
        leads(graph, from, next),
        brings_main(graph, next),
    ensures
        brings_main(graph, from),
{
    let (to, steps) = choose|to: usize, steps: nat| #[trigger]
        reached(graph, next, to, steps) && main_in(graph, to);
    assert(reached(graph, from, to, steps + 1));
}

/// Whether a `main` comes in with the imports of a source; `visited` holds the sources that were
/// searched before.
fn imports_main(
    graph: &ParsedGraph,
    current: usize,
    items: &Vec<Item>,
    visited: &mut Vec<usize>,
) -> (r: bool)
    requires
        source_items(graph@, current) == Some(item_views(items@)),
        known_sources(graph@.sources, old(visited)@),
    ensures
        known_sources(graph@.sources, final(visited)@),
        old(visited)@.len() <= final(visited)@.len(),
        r ==> exists|next: usize| #[trigger]
            leads(graph@, current, next) && brings_main(graph@, next),
        !r ==> {
            &&& forall|x: usize| #[trigger] old(visited)@.contains(x) ==> final(visited)@.contains(x)
            &&& searched(graph@, old(visited)@, final(visited)@)
            &&& forall|y: usize| #[trigger]
                leads(graph@, current, y) ==> final(visited)@.contains(y)
        },
    decreases graph@.sources.len() - old(visited)@.len(),
{
    let mut uses: Vec<UseDecl> = Vec::new();
    collect_use_declarations(items, &mut uses);
    let ghost shown = source_uses(graph@, current);
    assert(use_views(uses@) =~= shown);
    let ghost before = visited@;
    let mut i: usize = 0;
    while i < uses.len()
        invariant
            i <= uses@.len(),
            source_items(graph@, current) == Some(item_views(items@)),
            shown == source_uses(graph@, current),
            use_views(uses@) == shown,
            shown.len() == uses@.len(),
            before == old(visited)@,
            before.len() <= visited@.len(),
            known_sources(graph@.sources, visited@),
            forall|x: usize| #[trigger] before.contains(x) ==> visited@.contains(x),
            searched(graph@, before, visited@),
            forall|k: int, y: usize|
                0 <= k < i && #[trigger] use_leads(graph@, current, shown[k], y)
                    ==> visited@.contains(y),
        decreases uses@.len() - i,
    {
        assert(shown[i as int] == uses@[i as int]@);
        let ghost now = visited@;
        if let Some(target) = find_link(graph, current, uses[i].span) {
            if target != current && !contains_id(visited, target) {
                if let Some(program) = read_source(graph, target) {
                    assert(use_leads(graph@, current, shown[i as int], target));
                    assert(leads(graph@, current, target));
                    visited.push(target);
                    let ghost marked = visited@;
                    proof {
                        assert(known_sources(graph@.sources, marked));
                        lemma_visited_bound(graph@.sources, marked);
                        assert forall|x: usize| #[trigger] now.contains(x) implies marked.contains(
                            x,
                        ) by {
                            let k = choose|k: int| 0 <= k < now.len() && now[k] == x;
                            assert(marked[k] == x);
                        }
                        assert(marked[now.len() as int] == target);
                    }
                    if items_contain_main(&program.items) {
                        assert(reached(graph@, target, target, 0));
                        assert(brings_main(graph@, target));
                        return true;
                    }
                    if imports_main(graph, target, &program.items, visited) {
                        proof {
                            let next = choose|next: usize| #[trigger]
                                leads(graph@, target, next) && brings_main(graph@, next);
                            lemma_reached_step(graph@, target, next);
                        }
                        return true;
                    }
                    proof {
                        let after = visited@;
                        assert forall|x: usize| #[trigger]
                            after.contains(x) && !before.contains(x) implies settled(
                            graph@,
                            after,
                            x,
                        ) by {
                            if now.contains(x) {
                                assert(settled(graph@, now, x));
                                assert forall|y: usize| #[trigger]
                                    leads(graph@, x, y) implies after.contains(y) by {
                                    assert(now.contains(y));
                                    assert(marked.contains(y));
                                }
                            } else if x == target {
                            } else {
                                assert(!marked.contains(x)) by {
                                    if marked.contains(x) {
                                        let k = choose|k: int| 0 <= k < marked.len() && marked[k] == x;
                                        if k < now.len() {
                                            assert(now[k] == x);
                                        }
                                    }
                                }
                            }
                        }
                        assert(marked.contains(target));
                        lemma_visited_bound(graph@.sources, after);
                    }
                }
            }
        }
        proof {
            assert forall|k: int, y: usize|
                0 <= k < i + 1 && #[trigger] use_leads(
                    graph@,
                    current,
                    shown[k],
                    y,
                ) implies visited@.contains(y) by {
                if k < i {
                    assert(now.contains(y));
                }
            }
        }
        i = i + 1;
    }
    proof {
        assert forall|y: usize| #[trigger] leads(graph@, current, y) implies visited@.contains(y) by {
            let k = choose|k: int|
                0 <= k < shown.len() && use_leads(graph@, current, #[trigger] shown[k], y);
            assert(use_leads(graph@, current, shown[k], y));
        }
    }
    false
}

/// What is reached from a settled set stays in it.
proof fn lemma_settled_closure(
    graph: GraphView,
    within: Seq<usize>,
    from: usize,
    to: usize,
    steps: nat,
)
    requires
        forall|x: usize| #[trigger] within.contains(x) ==> settled(graph, within, x),
        within.contains(from),
        reached(graph, from, to, steps),
    ensures
        within.contains(to),
    decreases steps,
{
    if from != to {
        let next = choose|next: usize| #[trigger]
            leads(graph, from, next) && reached(graph, next, to, (steps - 1) as nat);
        assert(settled(graph, within, from));
        lemma_settled_closure(graph, within, next, to, (steps - 1) as nat);
    }
}

/// Whether a `main` comes in with a source that can be read.
fn source_brings_main(graph: &ParsedGraph, file_id: usize, items: &Vec<Item>) -> (r: bool)
    requires
        source_items(graph@, file_id) == Some(item_views(items@)),
    ensures
        r == brings_main(graph@, file_id),
{
    if items_contain_main(items) {
        assert(reached(graph@, file_id, file_id, 0));
        return true;
    }
    let mut visited: Vec<usize> = Vec::new();
    visited.push(file_id);
    let ghost before = visited@;
    assert(before[0] == file_id);
    if imports_main(graph, file_id, items, &mut visited) {
        proof {
            let next = choose|next: usize| #[trigger]
                leads(graph@, file_id, next) && brings_main(graph@, next);
            lemma_reached_step(graph@, file_id, next);
        }
        true
    } else {
        proof {
            assert(before.contains(file_id));
            assert forall|x: usize| #[trigger] visited@.contains(x) implies settled(
                graph@,
                visited@,
                x,
            ) by {
                if before.contains(x) {
                    assert(x == file_id);
                }
            }
            assert forall|to: usize, steps: nat| #[trigger]
                reached(graph@, file_id, to, steps) implies !main_in(graph@, to) by {
                lemma_settled_closure(graph@, visited@, file_id, to, steps);
                assert(settled(graph@, visited@, to));
            }
        }
        false
    }
}

/// Whether `a` comes before `b`: by source, start and end, in this order.
pub open spec fn span_before(a: Span, b: Span) -> bool {
    if a.file_id != b.file_id {
        a.file_id < b.file_id
    } else if a.start != b.start {
        a.start < b.start
    } else {
        a.end < b.end
    }
}

/// Whether every span comes before the later ones, so that none occurs twice.
pub open spec fn spans_ascend(spans: Seq<Span>) -> bool {
    forall|i: int, j: int|
        0 <= i < j < spans.len() ==> span_before(#[trigger] spans[i], #[trigger] spans[j])
}

/// Puts a span into its place in an ascending list, unless it is there.
fn insert_span(list: &mut Vec<Span>, span: Span)
    requires
        spans_ascend(old(list)@),
    ensures
        spans_ascend(final(list)@),
        forall|s: Span| #[trigger]
            final(list)@.contains(s) <==> old(list)@.contains(s) || s == span,
{
    let ghost before = list@;
    let mut i: usize = 0;
    while i < list.len() && (list[i].file_id < span.file_id || (list[i].file_id == span.file_id && (
    list[i].start < span.start || (list[i].start == span.start && list[i].end < span.end))))
        invariant
            i <= list@.len(),
            list@ == before,
            forall|k: int| 0 <= k < i ==> span_before(#[trigger] before[k], span),
        decreases list@.len() - i,
    {
        i = i + 1;
    }
    if i < list.len() && list[i] == span {
        assert(before.contains(span));
        return ;
    }
    list.insert(i, span);
    proof {
        let after = list@;
        assert forall|x: int, y: int| 0 <= x < y < after.len() implies span_before(
            #[trigger] after[x],
            #[trigger] after[y],
        ) by {
            if x < i {
                if y > i {
                    assert(span_before(before[x], before[y - 1]));
                } else if y < i {
                    assert(span_before(before[x], before[y]));
                }
            } else if x > i {
                assert(span_before(before[x - 1], before[y - 1]));
            } else if y - 1 > i {
                assert(span_before(before[i as int], before[y - 1]));
            }
        }
        assert forall|s: Span| #[trigger] after.contains(s) <==> before.contains(s) || s == span by {
            if after.contains(s) {
                let k = choose|k: int| 0 <= k < after.len() && after[k] == s;
                if k < i {
                    assert(before[k] == s);
                } else if k > i {
                    assert(before[k - 1] == s);
                }
            }
            if s == span {
                assert(after[i as int] == s);
            } else if before.contains(s) {
                let k = choose|k: int| 0 <= k < before.len() && before[k] == s;
                if k < i {
                    assert(after[k] == s);
                } else {
                    assert(after[k + 1] == s);
                }
            }
        }
    }
}

/// Whether an import of the root brings in a `main`.
pub open spec fn use_brings_main(graph: GraphView, declaration: UseView) -> bool {
    exists|to: usize| #[trigger] use_leads(graph, 0, declaration, to) && brings_main(graph, to)
}

/// Whether `spans` are those of the imports of the root that bring in a `main`, in order and once
/// each.
pub open spec fn main_imports(graph: GraphView, root: Seq<ItemView>, spans: Seq<Span>) -> bool {
    &&& spans_ascend(spans)
    &&& forall|span: Span| #[trigger]
        spans.contains(span) <==> exists|i: int|
            0 <= i < all_uses(root).len() && use_brings_main(graph, #[trigger] all_uses(root)[i])
                && all_uses(root)[i].span == span
}

/// The imports of the root that bring in a `main`.
pub fn imported_main_spans(root: &Program, graph: &ParsedGraph) -> (spans: Vec<Span>)
    ensures
        main_imports(graph@, root@, spans@),
{
    let mut uses: Vec<UseDecl> = Vec::new();
    collect_use_declarations(&root.items, &mut uses);
    let ghost shown = all_uses(root@);
    assert(use_views(uses@) =~= shown);
    let mut spans: Vec<Span> = Vec::new();
    let mut i: usize = 0;
    while i < uses.len()
        invariant
            i <= uses@.len(),
            shown == all_uses(root@),
            use_views(uses@) == shown,
            shown.len() == uses@.len(),
            spans_ascend(spans@),
            forall|span: Span| #[trigger]
                spans@.contains(span) <==> exists|k: int|
                    0 <= k < i && use_brings_main(graph@, #[trigger] shown[k]) && shown[k].span
                        == span,
        decreases uses@.len() - i,
    {
        assert(shown[i as int] == uses@[i as int]@);
        let ghost before = spans@;
        let mut brings: bool = false;
        if let Some(target) = find_link(graph, 0, uses[i].span) {
            if target != 0 {
                if let Some(program) = read_source(graph, target) {
                    assert(use_leads(graph@, 0, shown[i as int], target));
                    brings = source_brings_main(graph, target, &program.items);
                }
            }
        }
        assert(brings == use_brings_main(graph@, shown[i as int]));
        if brings {
            insert_span(&mut spans, uses[i].span);
        }
        proof {
            assert forall|span: Span| #[trigger]
                spans@.contains(span) <==> exists|k: int|
                    0 <= k < i + 1 && use_brings_main(graph@, #[trigger] shown[k]) && shown[k].span
                        == span by {
                assert(spans@.contains(span) <==> before.contains(span) || (brings && span
                    == shown[i as int].span));
                if exists|k: int|
                    0 <= k < i + 1 && use_brings_main(graph@, #[trigger] shown[k]) && shown[k].span
                        == span {
                    let k = choose|k: int|
                        0 <= k < i + 1 && use_brings_main(graph@, #[trigger] shown[k])
                            && shown[k].span == span;
                    if k < i {
                        assert(before.contains(span));
                    }
                }
                if before.contains(span) {
                    let k = choose|k: int|
                        0 <= k < i && use_brings_main(graph@, #[trigger] shown[k]) && shown[k].span
                            == span;
                    assert(0 <= k < i + 1);
                }
                if brings && span == shown[i as int].span {
                    assert(use_brings_main(graph@, shown[i as int]));
                }
            }
        }
        i = i + 1;
    }
    spans
}

/// The imports that bring in a `main` make one list only.
pub proof fn lemma_main_imports_unique(
    graph: GraphView,
    root: Seq<ItemView>,
    a: Seq<Span>,
    b: Seq<Span>,
)
    requires
        main_imports(graph, root, a),
        main_imports(graph, root, b),
    ensures
        a == b,
{
    crate::order::lemma_ascending_unique(a, b, |x: Span, y: Span| span_before(x, y));
}

/// Whether the compiler reports a second `main`.
pub open spec fn is_duplicate_main(report: ReportView) -> bool {
    report.kind == ErrorKindView::FunctionRedefined("main"@)
}

fn reports_duplicate_main(diagnostic: &CompilerDiagnostic) -> (r: bool)
    ensures
        r == is_duplicate_main(diagnostic@),
{
    match &diagnostic.kind {
        ErrorKind::FunctionRedefined(name) => same(name.as_str(), "main"),
        _ => false,
    }
}

/// Whether a second `main` is among some reports.
pub fn any_duplicate_main(diagnostics: &Vec<CompilerDiagnostic>) -> (r: bool)
    ensures
        r <==> exists|i: int|
            0 <= i < diagnostics@.len() && is_duplicate_main(
                #[trigger] report_views(diagnostics@)[i],
            ),
{
    let ghost shown = report_views(diagnostics@);
    let mut i: usize = 0;
    while i < diagnostics.len()
        invariant
            i <= diagnostics@.len(),
            shown == report_views(diagnostics@),
            forall|k: int| 0 <= k < i ==> !is_duplicate_main(#[trigger] shown[k]),
        decreases diagnostics@.len() - i,
    {
        assert(shown[i as int] == diagnostics@[i as int]@);
        if reports_duplicate_main(&diagnostics[i]) {
            return true;
        }
        i = i + 1;
    }
    false
}

/// The number of reports of a second `main` among the first `n` reports.
pub open spec fn duplicates_among(reports: Seq<ReportView>, n: int) -> nat
    decreases n,
{
    if n <= 0 {
        0
    } else {
        duplicates_among(reports, n - 1) + (if is_duplicate_main(reports[n - 1]) {
            1nat
        } else {
            0nat
        })
    }
}

/// Labels for the first `n` imports, but not for one of them.
pub open spec fn other_imports(spans: Seq<Span>, primary: int, n: int) -> Seq<LabelView>
    decreases n,
{
    if n <= 0 {
        Seq::empty()
    } else if n - 1 == primary {
        other_imports(spans, primary, n - 1)
    } else {
        other_imports(spans, primary, n - 1).push(
            LabelView {
                span: spans[n - 1],
                message: "Another imported `main` enters through this use"@,
            },
        )
    }
}

/// A report of a second `main` that points at an import, with the other imports as further labels.
pub open spec fn at_import(report: ReportView, spans: Seq<Span>, primary: int) -> ReportView {
    ReportView {
        place: Place::Code(spans[primary]),
        secondary: report.secondary + other_imports(spans, primary, spans.len() as int),
        ..report
    }
}

/// The import that a report points at: each report takes the next import, and the last one is taken
/// again where there are too few.
pub open spec fn import_for(reports: Seq<ReportView>, spans: Seq<Span>, i: int) -> int {
    if duplicates_among(reports, i) < spans.len() {
        duplicates_among(reports, i) as int
    } else {
        spans.len() - 1
    }
}

/// Reports where each one of a second `main` points at an import that brings it in; without such
/// imports they stay as they are.
pub open spec fn at_imports(reports: Seq<ReportView>, spans: Seq<Span>) -> Seq<ReportView> {
    Seq::new(
        reports.len(),
        |i: int|
            if spans.len() > 0 && is_duplicate_main(reports[i]) {
                at_import(reports[i], spans, import_for(reports, spans, i))
            } else {
                reports[i]
            },
    )
}

/// Reports of a compiler that could not compile the root, as the editor shows them.
pub open spec fn failure_reports(
    reports: Seq<ReportView>,
    root: Seq<ItemView>,
    graph: Option<GraphView>,
) -> Seq<ReportView> {
    match graph {
        Some(graph) => at_imports(
            reports,
            choose|spans: Seq<Span>| #[trigger] main_imports(graph, root, spans),
        ),
        None => reports,
    }
}

/// Where no second `main` is reported, the sources do not matter.
pub proof fn lemma_no_duplicate_main(
    reports: Seq<ReportView>,
    root: Seq<ItemView>,
    graph: Option<GraphView>,
)
    requires
        forall|i: int| 0 <= i < reports.len() ==> !is_duplicate_main(#[trigger] reports[i]),
    ensures
        failure_reports(reports, root, graph) == reports,
{
    if let Some(graph) = graph {
        let spans = choose|spans: Seq<Span>| #[trigger] main_imports(graph, root, spans);
        assert(at_imports(reports, spans) =~= reports);
    }
}

/// What an optional [`ParsedGraph`] says.
pub open spec fn opt_graph(graph: Option<ParsedGraph>) -> Option<GraphView> {
    match graph {
        Some(graph) => Some(graph@),
        None => None,
    }
}

/// Adds a label for each import but one.
fn label_imports(labels: &mut Vec<Label>, spans: &Vec<Span>, primary: usize)
    ensures
        label_views(final(labels)@) == label_views(old(labels)@) + other_imports(
            spans@,
            primary as int,
            spans@.len() as int,
        ),
{
    let ghost before = label_views(labels@);
    let mut k: usize = 0;
    assert(label_views(labels@) =~= before + other_imports(spans@, primary as int, 0));
    while k < spans.len()
        invariant
            k <= spans@.len(),
            label_views(labels@) == before + other_imports(spans@, primary as int, k as int),
        decreases spans@.len() - k,
    {
        if k != primary {
            let ghost so_far = labels@;
            let label = Label {
                span: spans[k],
                message: "Another imported `main` enters through this use".to_owned(),
            };
            let ghost view = label@;
            labels.push(label);
            assert(label_views(labels@) =~= label_views(so_far).push(view));
            assert(label_views(labels@) =~= before + other_imports(
                spans@,
                primary as int,
                k + 1,
            ));
        }
        k = k + 1;
    }
}

/// Lets the reports of a second `main` point at the imports that bring it in.
fn point_at_imports(diagnostics: &Vec<CompilerDiagnostic>, spans: &Vec<Span>) -> (r: Vec<
    CompilerDiagnostic,
>)
    requires
        spans@.len() > 0,
    ensures
        report_views(r@) == at_imports(report_views(diagnostics@), spans@),
{
    let ghost shown = report_views(diagnostics@);
    let mut r: Vec<CompilerDiagnostic> = Vec::new();
    let mut duplicates: usize = 0;
    let mut i: usize = 0;
    while i < diagnostics.len()
        invariant
            i <= diagnostics@.len(),
            spans@.len() > 0,
            shown == report_views(diagnostics@),
            duplicates <= i,
            duplicates == duplicates_among(shown, i as int),
            r@.len() == i,
            forall|k: int| 0 <= k < i ==> (#[trigger] r@[k])@ == at_imports(shown, spans@)[k],
        decreases diagnostics@.len() - i,
    {
        let diagnostic: &CompilerDiagnostic = &diagnostics[i];
        assert(shown[i as int] == diagnostic@);
        if reports_duplicate_main(diagnostic) {
            let primary: usize = if duplicates < spans.len() {
                duplicates
            } else {
                spans.len() - 1
            };
            let mut secondary: Vec<Label> = copy_labels(&diagnostic.secondary);
            label_imports(&mut secondary, spans, primary);
            let remapped = CompilerDiagnostic {
                kind: diagnostic.kind.copy(),
                message: diagnostic.message.clone(),
                severity: diagnostic.severity,
                place: Place::Code(spans[primary]),
                secondary,
                notes: copy_texts(&diagnostic.notes),
                help: copy_opt_text(&diagnostic.help),
            };
            assert(remapped@ =~= at_import(diagnostic@, spans@, primary as int));
            r.push(remapped);
            duplicates = duplicates + 1;
        } else {
            let copied: CompilerDiagnostic = diagnostic.copy();
            r.push(copied);
        }
        i = i + 1;
    }
    assert(report_views(r@) =~= at_imports(shown, spans@));
    r
}

/// Lets the reports of a second `main` point at the imports of the root that bring it in.
pub fn remap_imported_main_diagnostics(
    diagnostics: &Vec<CompilerDiagnostic>,
    root: &Program,
    graph: &Option<ParsedGraph>,
) -> (r: Vec<CompilerDiagnostic>)
    ensures
        report_views(r@) == failure_reports(report_views(diagnostics@), root@, opt_graph(*graph)),
{
    let ghost shown = report_views(diagnostics@);
    match graph {
        None => copy_reports(diagnostics),
        Some(graph) => {
            let spans: Vec<Span> = imported_main_spans(root, graph);
            proof {
                let chosen = choose|spans: Seq<Span>| #[trigger] main_imports(graph@, root@, spans);
                lemma_main_imports_unique(graph@, root@, spans@, chosen);
            }
            if spans.len() == 0 {
                assert(at_imports(shown, spans@) =~= shown);
                copy_reports(diagnostics)
            } else {
                point_at_imports(diagnostics, &spans)
            }
        },
    }
}

/// Only reports of a second `main` are changed, and of those only what they point at and the labels
/// that are added: the message, severity, notes and help stay.
pub proof fn law_remapping_keeps_reports(reports: Seq<ReportView>, spans: Seq<Span>, i: int)
    requires
        0 <= i < reports.len(),
    ensures
        at_imports(reports, spans).len() == reports.len(),
        !is_duplicate_main(reports[i]) ==> at_imports(reports, spans)[i] == reports[i],
        at_imports(reports, spans)[i].kind == reports[i].kind,
        at_imports(reports, spans)[i].message == reports[i].message,
        at_imports(reports, spans)[i].severity == reports[i].severity,
        at_imports(reports, spans)[i].notes == reports[i].notes,
        at_imports(reports, spans)[i].help == reports[i].help,
        reports[i].secondary.is_prefix_of(at_imports(reports, spans)[i].secondary),
{
    let after = at_imports(reports, spans)[i].secondary;
    assert(after.subrange(0, reports[i].secondary.len() as int) =~= reports[i].secondary);
}

} // verus!
