//! Which functions a name means: at the root of a program, and inside of each module.

use vstd::prelude::*;

use ropey::Rope;

use crate::analysis::resolution::{
    key_set, lookup_budget, resolve, resolve_function, use_key, use_target, ResolutionKey, Target,
};
use crate::analysis::sources::{with_entry, Functions, NamedView};
use crate::rope::rope_chars;
use crate::syntax::{
    item_view, item_views, lemma_item_views, Function, FunctionView, Item, ItemView, Program,
    UseItem, UseItemView, UseView,
};
use crate::text::{
    doc_lines, get_comments_from_lines, join_doc_lines, offset_to_position, position_of_offset, Span,
};

verus! {

broadcast use lemma_item_views;

/// The names that the items of an import bind, and what each is looked up as. Where the path of the
/// import names no unit it binds none.
pub open spec fn use_bindings(declaration: UseView, items: Seq<UseItemView>) -> Seq<
    (Seq<char>, Target),
>
    decreases items.len(),
{
    if items.len() == 0 {
        Seq::empty()
    } else {
        let before = use_bindings(declaration, items.drop_last());
        match use_target(declaration, items.last()) {
            Some(target) => before.push((items.last().local(), target)),
            None => before,
        }
    }
}

/// The names that the imports among some items bind, in their order.
pub open spec fn import_bindings(items: Seq<ItemView>) -> Seq<(Seq<char>, Target)>
    decreases items.len(),
{
    if items.len() == 0 {
        Seq::empty()
    } else {
        let before = import_bindings(items.drop_last());
        match items.last() {
            ItemView::Use(declaration) => before + use_bindings(declaration, declaration.items),
            _ => before,
        }
    }
}

/// The documentation of a function in the text of its source.
pub open spec fn documentation_of(function: FunctionView, text: Seq<char>) -> Seq<char> {
    let line = match position_of_offset(text, function.span.start as nat) {
        Some(position) => position.line as nat,
        None => 0,
    };
    join_doc_lines(doc_lines(text, line))
}

/// The documentation of a function in the text of its source.
pub fn function_documentation(function: &Function, text: &Rope) -> (r: String)
    ensures
        r@ == documentation_of(function@, rope_chars(*text)),
{
    let line: u32 = match offset_to_position(function.span.start, text) {
        Ok(position) => position.line,
        Err(_) => 0,
    };
    get_comments_from_lines(line, text)
}

/// A name that an import binds, and what it is looked up as.
pub(crate) struct Binding {
    pub(crate) name: String,
    pub(crate) key: ResolutionKey,
}

/// What a list of bindings says.
pub(crate) open spec fn binding_views(bindings: Seq<Binding>) -> Seq<(Seq<char>, Target)> {
    Seq::new(bindings.len(), |i: int| (bindings[i].name@, bindings[i].key@))
}

/// The names that the imports among some items bind, in their order.
pub(crate) fn collect_bindings(items: &Vec<Item>) -> (r: Vec<Binding>)
    ensures
        binding_views(r@) == import_bindings(item_views(items@)),
{
    let ghost shown = item_views(items@);
    let mut bindings: Vec<Binding> = Vec::new();
    let mut i: usize = 0;
    assert(binding_views(bindings@) =~= import_bindings(shown.take(0)));
    while i < items.len()
        invariant
            i <= items@.len(),
            shown == item_views(items@),
            binding_views(bindings@) == import_bindings(shown.take(i as int)),
        decreases items@.len() - i,
    {
        assert(shown.take(i + 1).drop_last() == shown.take(i as int));
        assert(shown.take(i + 1).last() == item_view(items@[i as int]));
        if let Item::Use(declaration) = &items[i] {
            let ghost before = binding_views(bindings@);
            let ghost names = declaration@.items;
            let mut j: usize = 0;
            assert(binding_views(bindings@) =~= before + use_bindings(declaration@, names.take(0)));
            while j < declaration.items.len()
                invariant
                    j <= declaration.items@.len(),
                    names == declaration@.items,
                    binding_views(bindings@) == before + use_bindings(
                        declaration@,
                        names.take(j as int),
                    ),
                decreases declaration.items@.len() - j,
            {
                let item: &UseItem = &declaration.items[j];
                assert(names.take(j + 1).drop_last() == names.take(j as int));
                assert(names.take(j + 1).last() == item@);
                if let Some(key) = use_key(declaration, item) {
                    let ghost so_far = bindings@;
                    let name: String = item.local().clone();
                    let ghost view = (name@, key@);
                    bindings.push(Binding { name, key });
                    assert(binding_views(bindings@) =~= binding_views(so_far).push(view));
                    assert(binding_views(bindings@) =~= before + use_bindings(
                        declaration@,
                        names.take(j + 1),
                    ));
                }
                j = j + 1;
            }
            assert(names.take(j as int) == names);
        }
        i = i + 1;
    }
    assert(shown.take(i as int) == shown);
    bindings
}

/// What a name is bound to in a program.
pub open spec fn bound_function(program: Seq<ItemView>, target: Target) -> Option<FunctionView> {
    resolve(program, target, Set::empty(), lookup_budget(program)).0
}

/// Looks up what a name is bound to.
pub(crate) fn look_up<'a>(program: &'a Program, key: &ResolutionKey, budget: usize) -> (r: Option<&'a Function>)
    requires
        budget == lookup_budget(program@),
    ensures
        match r {
            Some(function) => bound_function(program@, key@) == Some(function@),
            None => bound_function(program@, key@) is None,
        },
{
    let mut visited: Vec<ResolutionKey> = Vec::new();
    assert(key_set(visited@) =~= Set::empty());
    resolve_function(program, key, &mut visited, budget)
}

/// The entry under which a function is known without documentation.
pub open spec fn plain_entry(name: Seq<char>, function: FunctionView) -> NamedView {
    NamedView { name, function, documentation: Seq::empty() }
}

/// The functions among some items, under their own names; a later one of a name counts.
pub open spec fn own_functions(items: Seq<ItemView>) -> Seq<NamedView>
    decreases items.len(),
{
    if items.len() == 0 {
        Seq::empty()
    } else {
        let before = own_functions(items.drop_last());
        match items.last() {
            ItemView::Function(function) => with_entry(
                before,
                plain_entry(function.name, function),
            ),
            _ => before,
        }
    }
}

/// Functions, and those that some bindings find under their names.
pub open spec fn with_bindings(
    program: Seq<ItemView>,
    entries: Seq<NamedView>,
    bindings: Seq<(Seq<char>, Target)>,
) -> Seq<NamedView>
    decreases bindings.len(),
{
    if bindings.len() == 0 {
        entries
    } else {
        let before = with_bindings(program, entries, bindings.drop_last());
        let (name, target) = bindings.last();
        match bound_function(program, target) {
            Some(function) => with_entry(before, plain_entry(name, function)),
            None => before,
        }
    }
}

/// The functions that are visible among some items: those that stand there, and those that are
/// imported, which count where both have a name.
pub open spec fn scope_of(program: Seq<ItemView>, items: Seq<ItemView>) -> Seq<NamedView> {
    with_bindings(program, own_functions(items), import_bindings(items))
}

fn build_scope(program: &Program, items: &Vec<Item>, budget: usize) -> (r: Functions)
    requires
        budget == lookup_budget(program@),
    ensures
        r@ == scope_of(program@, item_views(items@)),
{
    let ghost shown = item_views(items@);
    let mut functions: Functions = Functions::new();
    let mut i: usize = 0;
    while i < items.len()
        invariant
            i <= items@.len(),
            shown == item_views(items@),
            functions@ == own_functions(shown.take(i as int)),
        decreases items@.len() - i,
    {
        assert(shown.take(i + 1).drop_last() == shown.take(i as int));
        assert(shown.take(i + 1).last() == item_view(items@[i as int]));
        if let Item::Function(function) = &items[i] {
            functions.insert(function.name.clone(), function.copy(), String::new());
        }
        i = i + 1;
    }
    assert(shown.take(i as int) == shown);
    let bindings: Vec<Binding> = collect_bindings(items);
    let ghost own = functions@;
    let ghost bound = binding_views(bindings@);
    let mut k: usize = 0;
    while k < bindings.len()
        invariant
            k <= bindings@.len(),
            budget == lookup_budget(program@),
            bound == binding_views(bindings@),
            functions@ == with_bindings(program@, own, bound.take(k as int)),
        decreases bindings@.len() - k,
    {
        assert(bound.take(k + 1).drop_last() == bound.take(k as int));
        assert(bound.take(k + 1).last() == (bindings@[k as int].name@, bindings@[k as int].key@));
        if let Some(function) = look_up(program, &bindings[k].key, budget) {
            functions.insert(bindings[k].name.clone(), function.copy(), String::new());
        }
        k = k + 1;
    }
    assert(bound.take(k as int) == bound);
    functions
}

/// The functions that stand in a module and what the names in their bodies mean.
#[derive(Debug)]
pub struct CallScope {
    pub owners: Vec<Span>,
    pub bindings: Functions,
}

/// What a [`CallScope`] says.
pub struct ScopeView {
    pub owners: Seq<Span>,
    pub bindings: Seq<NamedView>,
}

impl View for CallScope {
    type V = ScopeView;

    open spec fn view(&self) -> ScopeView {
        ScopeView { owners: self.owners@, bindings: self.bindings@ }
    }
}

/// What a list of scopes says.
pub open spec fn scope_views(scopes: Seq<CallScope>) -> Seq<ScopeView> {
    Seq::new(scopes.len(), |i: int| scopes[i]@)
}

/// The spans of the functions among some items.
pub open spec fn function_spans(items: Seq<ItemView>) -> Seq<Span>
    decreases items.len(),
{
    if items.len() == 0 {
        Seq::empty()
    } else {
        let before = function_spans(items.drop_last());
        match items.last() {
            ItemView::Function(function) => before.push(function.span),
            _ => before,
        }
    }
}

/// The scopes of the modules among some items, each before those inside of it.
pub open spec fn inner_scopes(program: Seq<ItemView>, items: Seq<ItemView>) -> Seq<ScopeView>
    decreases items,
{
    if items.len() == 0 {
        Seq::empty()
    } else {
        let before = inner_scopes(program, items.drop_last());
        match items.last() {
            ItemView::Module(module) => before.push(
                ScopeView {
                    owners: function_spans(module.items),
                    bindings: scope_of(program, module.items),
                },
            ) + inner_scopes(program, module.items),
            _ => before,
        }
    }
}

/// What a name means in the body of the function at a span: the last scope that owns the span
/// decides, also where it does not know the name.
pub open spec fn scope_owning(scopes: Seq<ScopeView>, owner: Span) -> Option<Seq<NamedView>>
    decreases scopes.len(),
{
    if scopes.len() == 0 {
        None
    } else if scopes.last().owners.contains(owner) {
        Some(scopes.last().bindings)
    } else {
        scope_owning(scopes.drop_last(), owner)
    }
}

/// Adds the scopes of the modules among some items.
pub fn collect_call_scopes(
    program: &Program,
    items: &Vec<Item>,
    budget: usize,
    scopes: &mut Vec<CallScope>,
)
    requires
        budget == lookup_budget(program@),
    ensures
        scope_views(final(scopes)@) == scope_views(old(scopes)@) + inner_scopes(
            program@,
            item_views(items@),
        ),
    decreases items@,
{
    let ghost shown = item_views(items@);
    let ghost start = scope_views(scopes@);
    let mut i: usize = 0;
    assert(scope_views(scopes@) =~= start + inner_scopes(program@, shown.take(0)));
    while i < items.len()
        invariant
            i <= items@.len(),
            budget == lookup_budget(program@),
            shown == item_views(items@),
            scope_views(scopes@) == start + inner_scopes(program@, shown.take(i as int)),
        decreases items@.len() - i,
    {
        assert(shown.take(i + 1).drop_last() == shown.take(i as int));
        assert(shown.take(i + 1).last() == item_view(items@[i as int]));
        if let Item::Module(module) = &items[i] {
            let ghost before = scopes@;
            let ghost inner = item_views(module.items@);
            let bindings: Functions = build_scope(program, &module.items, budget);
            let owners: Vec<Span> = collect_spans(&module.items);
            let scope = CallScope { owners, bindings };
            let ghost view = scope@;
            scopes.push(scope);
            assert(scope_views(scopes@) =~= scope_views(before).push(view));
            proof {
                let item = items@[i as int];
                assert(decreases_to!(items@ => item));
                assert(decreases_to!(item => item->Module_0));
                assert(decreases_to!(item->Module_0 => item->Module_0.items));
                assert(decreases_to!(item->Module_0.items => item->Module_0.items@));
            }
            collect_call_scopes(program, &module.items, budget, scopes);
            assert(scope_views(scopes@) =~= start + inner_scopes(program@, shown.take(i + 1)));
        }
        i = i + 1;
    }
    assert(shown.take(i as int) == shown);
}

/// The spans of the functions among some items.
fn collect_spans(items: &Vec<Item>) -> (r: Vec<Span>)
    ensures
        r@ == function_spans(item_views(items@)),
{
    let ghost shown = item_views(items@);
    let mut spans: Vec<Span> = Vec::new();
    let mut i: usize = 0;
    while i < items.len()
        invariant
            i <= items@.len(),
            shown == item_views(items@),
            spans@ == function_spans(shown.take(i as int)),
        decreases items@.len() - i,
    {
        assert(shown.take(i + 1).drop_last() == shown.take(i as int));
        assert(shown.take(i + 1).last() == item_view(items@[i as int]));
        if let Item::Function(function) = &items[i] {
            spans.push(function.span);
        }
        i = i + 1;
    }
    assert(shown.take(i as int) == shown);
    spans
}

} // verus!
