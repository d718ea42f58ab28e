//! Names to functions: through the units and modules of a resolved program, and along re-exports.
//!
//! In a resolved program each source is a module `unit_N`, and the path of an import starts with a
//! root segment and such a unit.

use vstd::prelude::*;

use crate::chars::{join2, same, to_chars, to_text};
use crate::numbers::{decimal, number_of, parse_number, to_decimal};
use crate::order::texts;
use crate::syntax::{
    copy_texts, item_view, item_views, lemma_item_views, module_view, Function, FunctionView, Item,
    ItemView, Module, ModuleView, Program, UseDecl, UseItem, UseItemView, UseView,
};

verus! {

broadcast use lemma_item_views;

/// What a lookup is after: a function's name in a module of a unit.
pub struct Target {
    pub file_id: nat,
    pub path: Seq<Seq<char>>,
    pub name: Seq<char>,
}

/// The name of the module that holds a source.
pub open spec fn unit_name(file_id: nat) -> Seq<char> {
    "unit_"@ + decimal(file_id)
}

/// The number of the source that a module holds, by the module's name.
pub open spec fn unit_number(name: Seq<char>) -> Option<nat> {
    if "unit_"@.is_prefix_of(name) {
        number_of(name.skip("unit_"@.len() as int))
    } else {
        None
    }
}

/// The first module with a name.
pub open spec fn module_in(items: Seq<ItemView>, name: Seq<char>) -> Option<ModuleView>
    decreases items.len(),
{
    if items.len() == 0 {
        None
    } else {
        match items[0] {
            ItemView::Module(module) if module.name == name => Some(module),
            _ => module_in(items.drop_first(), name),
        }
    }
}

/// The first function with a name.
pub open spec fn function_in(items: Seq<ItemView>, name: Seq<char>) -> Option<FunctionView>
    decreases items.len(),
{
    if items.len() == 0 {
        None
    } else {
        match items[0] {
            ItemView::Function(function) if function.name == name => Some(function),
            _ => function_in(items.drop_first(), name),
        }
    }
}

/// The items of the module that a path of names leads to.
pub open spec fn descend(items: Seq<ItemView>, path: Seq<Seq<char>>) -> Option<Seq<ItemView>>
    decreases path.len(),
{
    if path.len() == 0 {
        Some(items)
    } else {
        match module_in(items, path[0]) {
            Some(module) => descend(module.items, path.drop_first()),
            None => None,
        }
    }
}

/// The items of a module of a unit.
pub open spec fn items_at(
    program: Seq<ItemView>,
    file_id: nat,
    path: Seq<Seq<char>>,
) -> Option<Seq<ItemView>> {
    match module_in(program, unit_name(file_id)) {
        Some(unit) => descend(unit.items, path),
        None => None,
    }
}

/// What an import brings in, where its path names a unit.
pub open spec fn use_target(declaration: UseView, item: UseItemView) -> Option<Target> {
    if declaration.path.len() >= 2 {
        match unit_number(declaration.path[1]) {
            Some(file_id) => Some(
                Target { file_id, path: declaration.path.skip(2), name: item.name },
            ),
            None => None,
        }
    } else {
        None
    }
}

/// What the items of an import bring in under a name.
pub open spec fn use_imports(
    declaration: UseView,
    items: Seq<UseItemView>,
    name: Seq<char>,
) -> Seq<Option<Target>>
    decreases items.len(),
{
    if items.len() == 0 {
        Seq::empty()
    } else {
        let before = use_imports(declaration, items.drop_last(), name);
        if items.last().local() == name {
            before.push(use_target(declaration, items.last()))
        } else {
            before
        }
    }
}

/// What the imports among some items bring in under a name, in their order.
pub open spec fn imports_of(items: Seq<ItemView>, name: Seq<char>) -> Seq<Option<Target>>
    decreases items.len(),
{
    if items.len() == 0 {
        Seq::empty()
    } else {
        let before = imports_of(items.drop_last(), name);
        match items.last() {
            ItemView::Use(declaration) => before + use_imports(declaration, declaration.items, name),
            _ => before,
        }
    }
}

/// The function that a lookup finds: one that the module defines, or else what the first of its
/// imports under that name finds. A lookup that was made before finds nothing, so that imports in a
/// circle end; `budget` bounds how long a chain of imports may be.
pub open spec fn resolve(
    program: Seq<ItemView>,
    target: Target,
    visited: Set<Target>,
    budget: nat,
) -> (Option<FunctionView>, Set<Target>)
    decreases budget, 0nat,
{
    if budget == 0 || visited.contains(target) {
        (None, visited)
    } else {
        let marked = visited.insert(target);
        match items_at(program, target.file_id, target.path) {
            None => (None, marked),
            Some(items) => match function_in(items, target.name) {
                Some(function) => (Some(function), marked),
                None => resolve_any(
                    program,
                    imports_of(items, target.name),
                    marked,
                    (budget - 1) as nat,
                ),
            },
        }
    }
}

/// What the first of some imports finds that finds anything; an import whose path names no unit ends
/// the search.
pub open spec fn resolve_any(
    program: Seq<ItemView>,
    imports: Seq<Option<Target>>,
    visited: Set<Target>,
    budget: nat,
) -> (Option<FunctionView>, Set<Target>)
    decreases budget, imports.len() + 1,
{
    if imports.len() == 0 {
        (None, visited)
    } else {
        match imports[0] {
            None => (None, visited),
            Some(target) => {
                let (found, marked) = resolve(program, target, visited, budget);
                if found is Some {
                    (found, marked)
                } else {
                    resolve_any(program, imports.drop_first(), marked, budget)
                }
            },
        }
    }
}

/// A lookup, as it is remembered.
#[derive(Debug)]
pub struct ResolutionKey {
    pub file_id: usize,
    pub path: Vec<String>,
    pub name: String,
}

impl View for ResolutionKey {
    type V = Target;

    open spec fn view(&self) -> Target {
        Target { file_id: self.file_id as nat, path: texts(self.path@), name: self.name@ }
    }
}

/// The lookups of a list.
pub open spec fn key_set(keys: Seq<ResolutionKey>) -> Set<Target> {
    Set::new(|target: Target| exists|i: int| 0 <= i < keys.len() && keys[i]@ == target)
}

/// Whether two lists hold the same texts.
pub(crate) fn same_texts(a: &Vec<String>, b: &Vec<String>) -> (r: bool)
    ensures
        r == (texts(a@) == texts(b@)),
{
    if a.len() != b.len() {
        assert(texts(a@).len() != texts(b@).len());
        return false;
    }
    let mut i: usize = 0;
    while i < a.len()
        invariant
            i <= a@.len() == b@.len(),
            forall|k: int| 0 <= k < i ==> (#[trigger] a@[k])@ == b@[k]@,
        decreases a@.len() - i,
    {
        if !same(a[i].as_str(), b[i].as_str()) {
            assert(texts(a@)[i as int] != texts(b@)[i as int]);
            return false;
        }
        i = i + 1;
    }
    assert(texts(a@) =~= texts(b@));
    true
}

impl ResolutionKey {
    /// A copy of this lookup.
    pub fn copy(&self) -> (r: ResolutionKey)
        ensures
            r@ == self@,
    {
        ResolutionKey {
            file_id: self.file_id,
            path: copy_texts(&self.path),
            name: self.name.clone(),
        }
    }
}

/// Whether a lookup is among those that were made.
fn was_visited(visited: &Vec<ResolutionKey>, key: &ResolutionKey) -> (r: bool)
    ensures
        r == key_set(visited@).contains(key@),
{
    let mut i: usize = 0;
    while i < visited.len()
        invariant
            i <= visited@.len(),
            forall|k: int| 0 <= k < i ==> (#[trigger] visited@[k])@ != key@,
        decreases visited@.len() - i,
    {
        let other: &ResolutionKey = &visited[i];
        if other.file_id == key.file_id && same(other.name.as_str(), key.name.as_str())
            && same_texts(&other.path, &key.path) {
            assert(visited@[i as int]@ == key@);
            return true;
        }
        i = i + 1;
    }
    false
}

/// The number of the source that a module holds, by the module's name.
pub(crate) fn unit_id(name: &str) -> (r: Option<usize>)
    ensures
        match r {
            Some(n) => unit_number(name@) == Some(n as nat),
            None => unit_number(name@) is None,
        },
{
    let chars: Vec<char> = to_chars(name);
    proof {
        reveal_strlit("unit_");
    }
    if chars.len() < 5 || chars[0] != 'u' || chars[1] != 'n' || chars[2] != 'i' || chars[3] != 't'
        || chars[4] != '_' {
        assert(!"unit_"@.is_prefix_of(name@)) by {
            if "unit_"@.is_prefix_of(name@) {
                assert(name@.subrange(0, 5) == "unit_"@);
                assert(name@[0] == name@.subrange(0, 5)[0]);
                assert(name@[1] == name@.subrange(0, 5)[1]);
                assert(name@[2] == name@.subrange(0, 5)[2]);
                assert(name@[3] == name@.subrange(0, 5)[3]);
                assert(name@[4] == name@.subrange(0, 5)[4]);
            }
        }
        return None;
    }
    assert("unit_"@ =~= name@.subrange(0, 5));
    let rest: String = to_text(vstd::slice::slice_subrange(chars.as_slice(), 5, chars.len()));
    assert(rest@ == name@.skip(5));
    parse_number(rest.as_str())
}

/// The first module with a name.
pub(crate) fn find_module<'a>(items: &'a Vec<Item>, name: &str) -> (r: Option<&'a Module>)
    ensures
        match r {
            Some(module) => module_in(item_views(items@), name@) == Some(module_view(*module)),
            None => module_in(item_views(items@), name@) is None,
        },
{
    let ghost shown = item_views(items@);
    let mut i: usize = 0;
    assert(shown.skip(0) == shown);
    while i < items.len()
        invariant
            i <= items@.len(),
            shown == item_views(items@),
            module_in(shown, name@) == module_in(shown.skip(i as int), name@),
        decreases items@.len() - i,
    {
        assert(shown.skip(i as int)[0] == item_view(items@[i as int]));
        assert(shown.skip(i as int).drop_first() == shown.skip(i + 1));
        if let Item::Module(module) = &items[i] {
            if same(module.name.as_str(), name) {
                return Some(module);
            }
        }
        i = i + 1;
    }
    None
}

/// The first function with a name.
pub(crate) fn find_function<'a>(items: &'a Vec<Item>, name: &str) -> (r: Option<&'a Function>)
    ensures
        match r {
            Some(function) => function_in(item_views(items@), name@) == Some(function@),
            None => function_in(item_views(items@), name@) is None,
        },
{
    let ghost shown = item_views(items@);
    let mut i: usize = 0;
    assert(shown.skip(0) == shown);
    while i < items.len()
        invariant
            i <= items@.len(),
            shown == item_views(items@),
            function_in(shown, name@) == function_in(shown.skip(i as int), name@),
        decreases items@.len() - i,
    {
        assert(shown.skip(i as int)[0] == item_view(items@[i as int]));
        assert(shown.skip(i as int).drop_first() == shown.skip(i + 1));
        if let Item::Function(function) = &items[i] {
            if same(function.name.as_str(), name) {
                return Some(function);
            }
        }
        i = i + 1;
    }
    None
}

/// The items of a module of a unit.
pub fn module_items<'a>(program: &'a Program, file_id: usize, path: &Vec<String>) -> (r: Option<
    &'a Vec<Item>,
>)
    ensures
        match r {
            Some(items) => items_at(program@, file_id as nat, texts(path@)) == Some(
                item_views(items@),
            ),
            None => items_at(program@, file_id as nat, texts(path@)) is None,
        },
{
    let name: String = join2("unit_", to_decimal(file_id).as_str());
    let mut items: &'a Vec<Item> = match find_module(&program.items, name.as_str()) {
        Some(unit) => &unit.items,
        None => return None,
    };
    let ghost shown = texts(path@);
    let mut i: usize = 0;
    assert(shown.skip(0) == shown);
    while i < path.len()
        invariant
            i <= path@.len(),
            shown == texts(path@),
            items_at(program@, file_id as nat, shown) == descend(
                item_views(items@),
                shown.skip(i as int),
            ),
        decreases path@.len() - i,
    {
        assert(shown.skip(i as int)[0] == path@[i as int]@);
        assert(shown.skip(i as int).drop_first() == shown.skip(i + 1));
        items = match find_module(items, path[i].as_str()) {
            Some(module) => &module.items,
            None => return None,
        };
        i = i + 1;
    }
    Some(items)
}

/// What an optional lookup says.
pub open spec fn opt_target(key: Option<ResolutionKey>) -> Option<Target> {
    match key {
        Some(key) => Some(key@),
        None => None,
    }
}

/// What a list of optional lookups says.
pub open spec fn opt_targets(keys: Seq<Option<ResolutionKey>>) -> Seq<Option<Target>> {
    Seq::new(keys.len(), |i: int| opt_target(keys[i]))
}

/// What an import brings in, where its path names a unit.
pub(crate) fn use_key(declaration: &UseDecl, item: &UseItem) -> (r: Option<ResolutionKey>)
    ensures
        opt_target(r) == use_target(declaration@, item@),
{
    if declaration.path.len() < 2 {
        return None;
    }
    assert(declaration@.path[1] == declaration.path@[1]@);
    match unit_id(declaration.path[1].as_str()) {
        None => None,
        Some(file_id) => {
            let mut path: Vec<String> = Vec::new();
            let mut i: usize = 2;
            while i < declaration.path.len()
                invariant
                    2 <= i <= declaration.path@.len(),
                    path@.len() == i - 2,
                    forall|k: int| 0 <= k < i - 2 ==> (#[trigger] path@[k])@ == declaration.path@[k
                        + 2]@,
                decreases declaration.path@.len() - i,
            {
                path.push(declaration.path[i].clone());
                i = i + 1;
            }
            assert(texts(path@) =~= declaration@.path.skip(2));
            Some(ResolutionKey { file_id, path, name: item.name.clone() })
        },
    }
}

/// What the imports among some items bring in under a name, in their order.
fn import_keys(items: &Vec<Item>, name: &str) -> (r: Vec<Option<ResolutionKey>>)
    ensures
        opt_targets(r@) == imports_of(item_views(items@), name@),
{
    let ghost shown = item_views(items@);
    let mut keys: Vec<Option<ResolutionKey>> = Vec::new();
    let mut i: usize = 0;
    assert(opt_targets(keys@) =~= imports_of(shown.take(0), name@));
    while i < items.len()
        invariant
            i <= items@.len(),
            shown == item_views(items@),
            opt_targets(keys@) == imports_of(shown.take(i as int), name@),
        decreases items@.len() - i,
    {
        assert(shown.take(i + 1).drop_last() == shown.take(i as int));
        assert(shown.take(i + 1).last() == item_view(items@[i as int]));
        if let Item::Use(declaration) = &items[i] {
            let ghost before = opt_targets(keys@);
            let ghost names = declaration@.items;
            let mut j: usize = 0;
            assert(opt_targets(keys@) =~= before + use_imports(declaration@, names.take(0), name@));
            while j < declaration.items.len()
                invariant
                    j <= declaration.items@.len(),
                    names == declaration@.items,
                    opt_targets(keys@) == before + use_imports(
                        declaration@,
                        names.take(j as int),
                        name@,
                    ),
                decreases declaration.items@.len() - j,
            {
                let item: &UseItem = &declaration.items[j];
                assert(names.take(j + 1).drop_last() == names.take(j as int));
                assert(names.take(j + 1).last() == item@);
                if same(item.local().as_str(), name) {
                    let ghost so_far = keys@;
                    let key: Option<ResolutionKey> = use_key(declaration, item);
                    let ghost target = opt_target(key);
                    keys.push(key);
                    assert(opt_targets(keys@) =~= opt_targets(so_far).push(target));
                    assert(opt_targets(keys@) =~= before + use_imports(
                        declaration@,
                        names.take(j + 1),
                        name@,
                    ));
                }
                j = j + 1;
            }
            assert(names.take(j as int) == names);
        }
        i = i + 1;
    }
    assert(shown.take(i as int) == shown);
    keys
}

/// Finds the function that a lookup is after.
pub fn resolve_function<'a>(
    program: &'a Program,
    key: &ResolutionKey,
    visited: &mut Vec<ResolutionKey>,
    budget: usize,
) -> (r: Option<&'a Function>)
    ensures
        match r {
            Some(function) => resolve(
                program@,
                key@,
                key_set(old(visited)@),
                budget as nat,
            ).0 == Some(function@),
            None => resolve(program@, key@, key_set(old(visited)@), budget as nat).0 is None,
        },
        key_set(final(visited)@) == resolve(
            program@,
            key@,
            key_set(old(visited)@),
            budget as nat,
        ).1,
    decreases budget,
{
    if budget == 0 || was_visited(visited, key) {
        return None;
    }
    let ghost before = visited@;
    visited.push(key.copy());
    proof {
        assert(key_set(visited@) =~= key_set(before).insert(key@)) by {
            assert forall|target: Target|
                key_set(visited@).contains(target) == key_set(before).insert(key@).contains(
                    target,
                ) by {
                if key_set(before).contains(target) {
                    let i = choose|i: int| 0 <= i < before.len() && before[i]@ == target;
                    assert(visited@[i]@ == target);
                }
                if target == key@ {
                    assert(visited@[before.len() as int]@ == target);
                }
                if key_set(visited@).contains(target) {
                    let i = choose|i: int| 0 <= i < visited@.len() && visited@[i]@ == target;
                    if i < before.len() {
                        assert(before[i]@ == target);
                    }
                }
            }
        }
    }
    let items: &'a Vec<Item> = match module_items(program, key.file_id, &key.path) {
        Some(items) => items,
        None => return None,
    };
    if let Some(function) = find_function(items, key.name.as_str()) {
        return Some(function);
    }
    let imports: Vec<Option<ResolutionKey>> = import_keys(items, key.name.as_str());
    let ghost shown = opt_targets(imports@);
    let ghost marked = key_set(visited@);
    let mut i: usize = 0;
    assert(shown.skip(0) == shown);
    while i < imports.len()
        invariant
            i <= imports@.len(),
            budget > 0,
            shown == opt_targets(imports@),
            resolve(program@, key@, key_set(old(visited)@), budget as nat) == resolve_any(
                program@,
                shown,
                marked,
                (budget - 1) as nat,
            ),
            resolve_any(program@, shown, marked, (budget - 1) as nat) == resolve_any(
                program@,
                shown.skip(i as int),
                key_set(visited@),
                (budget - 1) as nat,
            ),
        decreases imports@.len() - i,
    {
        assert(shown.skip(i as int)[0] == opt_target(imports@[i as int]));
        assert(shown.skip(i as int).drop_first() == shown.skip(i + 1));
        match &imports[i] {
            None => {
                return None;
            },
            Some(next) => {
                if let Some(function) = resolve_function(program, next, visited, budget - 1) {
                    return Some(function);
                }
            },
        }
        i = i + 1;
    }
    None
}

/// The number of names that the imports among some items bring in, those inside of modules included.
pub open spec fn import_count(items: Seq<ItemView>) -> nat
    decreases items,
{
    if items.len() == 0 {
        0
    } else {
        import_count(items.drop_last()) + match items.last() {
            ItemView::Use(declaration) => declaration.items.len(),
            ItemView::Module(module) => import_count(module.items),
            _ => 0,
        }
    }
}

/// The length of a chain of imports that no lookup in a program exceeds.
pub open spec fn lookup_budget(program: Seq<ItemView>) -> nat {
    if import_count(program) + 2 <= usize::MAX {
        import_count(program) + 2
    } else {
        usize::MAX as nat
    }
}

/// `import_count`, or the greatest number where that is greater.
fn count_imports(items: &Vec<Item>) -> (n: usize)
    ensures
        n == (if import_count(item_views(items@)) <= usize::MAX {
            import_count(item_views(items@))
        } else {
            usize::MAX as nat
        }),
    decreases items@,
{
    let ghost shown = item_views(items@);
    let mut n: usize = 0;
    let mut i: usize = 0;
    while i < items.len()
        invariant
            i <= items@.len(),
            shown == item_views(items@),
            n == (if import_count(shown.take(i as int)) <= usize::MAX {
                import_count(shown.take(i as int))
            } else {
                usize::MAX as nat
            }),
        decreases items@.len() - i,
    {
        assert(shown.take(i + 1).drop_last() == shown.take(i as int));
        assert(shown.take(i + 1).last() == item_view(items@[i as int]));
        match &items[i] {
            Item::Use(declaration) => {
                n = n.saturating_add(declaration.items.len());
            },
            Item::Module(module) => {
                proof {
                    let item = items@[i as int];
                    assert(decreases_to!(items@ => item));
                    assert(decreases_to!(item => item->Module_0));
                    assert(decreases_to!(item->Module_0 => item->Module_0.items));
                    assert(decreases_to!(item->Module_0.items => item->Module_0.items@));
                }
                n = n.saturating_add(count_imports(&module.items));
            },
            _ => {},
        }
        i = i + 1;
    }
    assert(shown.take(i as int) == shown);
    n
}

/// The length of a chain of imports that no lookup in a program exceeds.
pub fn budget_of(program: &Program) -> (n: usize)
    ensures
        n == lookup_budget(program@),
{
    count_imports(&program.items).saturating_add(2)
}

/// What the items of an import bring in.
spec fn use_targets(declaration: UseView, items: Seq<UseItemView>) -> Set<Target>
    decreases items.len(),
{
    if items.len() == 0 {
        Set::empty()
    } else {
        let before = use_targets(declaration, items.drop_last());
        match use_target(declaration, items.last()) {
            Some(target) => before.insert(target),
            None => before,
        }
    }
}

/// What the imports among some items bring in, those inside of modules included.
spec fn all_targets(items: Seq<ItemView>) -> Set<Target>
    decreases items,
{
    if items.len() == 0 {
        Set::empty()
    } else {
        all_targets(items.drop_last()).union(
            match items.last() {
                ItemView::Use(declaration) => use_targets(declaration, declaration.items),
                ItemView::Module(module) => all_targets(module.items),
                _ => Set::empty(),
            },
        )
    }
}

proof fn lemma_use_targets(declaration: UseView, items: Seq<UseItemView>)
    ensures
        use_targets(declaration, items).finite(),
        use_targets(declaration, items).len() <= items.len(),
        forall|i: int|
            0 <= i < items.len() && use_target(declaration, #[trigger] items[i]) is Some
                ==> use_targets(declaration, items).contains(use_target(declaration, items[i])->0),
    decreases items.len(),
{
    if items.len() > 0 {
        let rest = items.drop_last();
        lemma_use_targets(declaration, rest);
        assert forall|i: int|
            0 <= i < items.len() && use_target(declaration, #[trigger] items[i]) is Some implies use_targets(
            declaration,
            items,
        ).contains(use_target(declaration, items[i])->0) by {
            if i < rest.len() {
                assert(rest[i] == items[i]);
            }
        }
    }
}

proof fn lemma_all_targets(items: Seq<ItemView>)
    ensures
        all_targets(items).finite(),
        all_targets(items).len() <= import_count(items),
    decreases items,
{
    if items.len() > 0 {
        lemma_all_targets(items.drop_last());
        let last = match items.last() {
            ItemView::Use(declaration) => use_targets(declaration, declaration.items),
            ItemView::Module(module) => all_targets(module.items),
            _ => Set::empty(),
        };
        match items.last() {
            ItemView::Use(declaration) => {
                lemma_use_targets(declaration, declaration.items);
            },
            ItemView::Module(module) => {
                lemma_all_targets(module.items);
            },
            _ => {},
        }
        vstd::set_lib::lemma_len_union(all_targets(items.drop_last()), last);
    }
}

/// An item's part of the targets.
proof fn lemma_targets_of_item(items: Seq<ItemView>, i: int)
    requires
        0 <= i < items.len(),
    ensures
        items[i] matches ItemView::Module(module) ==> all_targets(module.items).subset_of(
            all_targets(items),
        ),
        items[i] matches ItemView::Use(declaration) ==> use_targets(
            declaration,
            declaration.items,
        ).subset_of(all_targets(items)),
    decreases items.len(),
{
    if i < items.len() - 1 {
        lemma_targets_of_item(items.drop_last(), i);
    }
}

proof fn lemma_targets_of_module(items: Seq<ItemView>, name: Seq<char>)
    ensures
        module_in(items, name) matches Some(module) ==> all_targets(module.items).subset_of(
            all_targets(items),
        ),
{
    lemma_module_index(items, name);
    if module_in(items, name) is Some {
        let i = choose|i: int|
            0 <= i < items.len() && items[i] == ItemView::Module(module_in(items, name)->0);
        lemma_targets_of_item(items, i);
    }
}

proof fn lemma_module_index(items: Seq<ItemView>, name: Seq<char>)
    ensures
        module_in(items, name) matches Some(module) ==> module.name == name && exists|i: int|
            0 <= i < items.len() && items[i] == ItemView::Module(module),
    decreases items.len(),
{
    if items.len() > 0 {
        lemma_module_index(items.drop_first(), name);
        if let Some(module) = module_in(items, name) {
            if items[0] == ItemView::Module(module) {
            } else {
                let rest = items.drop_first();
                let i = choose|i: int| 0 <= i < rest.len() && rest[i] == ItemView::Module(module);
                assert(items[i + 1] == ItemView::Module(module));
            }
        }
    }
}

proof fn lemma_targets_of_path(items: Seq<ItemView>, path: Seq<Seq<char>>)
    ensures
        descend(items, path) matches Some(inner) ==> all_targets(inner).subset_of(
            all_targets(items),
        ),
    decreases path.len(),
{
    if path.len() > 0 {
        lemma_targets_of_module(items, path[0]);
        if let Some(module) = module_in(items, path[0]) {
            lemma_targets_of_path(module.items, path.drop_first());
        }
    }
}

/// The imports under a name are among the targets.
proof fn lemma_imports_are_targets(items: Seq<ItemView>, name: Seq<char>, k: int)
    requires
        0 <= k < imports_of(items, name).len(),
        imports_of(items, name)[k] is Some,
    ensures
        all_targets(items).contains(imports_of(items, name)[k]->0),
    decreases items.len(),
{
    if items.len() > 0 {
        let before = imports_of(items.drop_last(), name);
        if k < before.len() {
            lemma_imports_are_targets(items.drop_last(), name, k);
        } else if let ItemView::Use(declaration) = items.last() {
            lemma_use_imports_are_targets(declaration, declaration.items, name, k - before.len());
        }
    }
}

proof fn lemma_use_imports_are_targets(
    declaration: UseView,
    items: Seq<UseItemView>,
    name: Seq<char>,
    k: int,
)
    requires
        0 <= k < use_imports(declaration, items, name).len(),
        use_imports(declaration, items, name)[k] is Some,
    ensures
        use_targets(declaration, items).contains(use_imports(declaration, items, name)[k]->0),
    decreases items.len(),
{
    if items.len() > 0 {
        let before = use_imports(declaration, items.drop_last(), name);
        if k < before.len() {
            lemma_use_imports_are_targets(declaration, items.drop_last(), name, k);
        }
    }
}

/// A lookup forgets none of the lookups before it.
proof fn lemma_resolve_grows(
    program: Seq<ItemView>,
    target: Target,
    visited: Set<Target>,
    budget: nat,
)
    ensures
        visited.subset_of(resolve(program, target, visited, budget).1),
    decreases budget, 0nat,
{
    if budget > 0 && !visited.contains(target) {
        if let Some(items) = items_at(program, target.file_id, target.path) {
            if function_in(items, target.name) is None {
                lemma_resolve_any_grows(
                    program,
                    imports_of(items, target.name),
                    visited.insert(target),
                    (budget - 1) as nat,
                );
            }
        }
    }
}

proof fn lemma_resolve_any_grows(
    program: Seq<ItemView>,
    imports: Seq<Option<Target>>,
    visited: Set<Target>,
    budget: nat,
)
    ensures
        visited.subset_of(resolve_any(program, imports, visited, budget).1),
    decreases budget, imports.len() + 1,
{
    if imports.len() > 0 {
        if let Some(target) = imports[0] {
            lemma_resolve_grows(program, target, visited, budget);
            let (found, marked) = resolve(program, target, visited, budget);
            if found is None {
                lemma_resolve_any_grows(program, imports.drop_first(), marked, budget);
            }
        }
    }
}

/// With more budget than there are targets left, a lookup does not use it up.
proof fn lemma_budget(
    program: Seq<ItemView>,
    target: Target,
    visited: Set<Target>,
    universe: Set<Target>,
    budget: nat,
    more: nat,
)
    requires
        universe.finite(),
        all_targets(program).subset_of(universe),
        universe.contains(target),
        universe.difference(visited).len() < budget <= more,
    ensures
        resolve(program, target, visited, budget) == resolve(program, target, visited, more),
    decreases budget, 0nat,
{
    if !visited.contains(target) {
        let marked = visited.insert(target);
        assert(universe.difference(marked) =~= universe.difference(visited).remove(target));
        assert(universe.difference(visited).contains(target));
        if let Some(items) = items_at(program, target.file_id, target.path) {
            lemma_targets_of_module(program, unit_name(target.file_id));
            let unit = module_in(program, unit_name(target.file_id))->0;
            lemma_targets_of_path(unit.items, target.path);
            let imports = imports_of(items, target.name);
            assert forall|k: int| 0 <= k < imports.len() && (#[trigger] imports[k]) is Some implies universe.contains(
            imports[k]->0) by {
                lemma_imports_are_targets(items, target.name, k);
            }
            if function_in(items, target.name) is None {
                lemma_budget_any(
                    program,
                    imports,
                    marked,
                    universe,
                    (budget - 1) as nat,
                    (more - 1) as nat,
                );
            }
        }
    }
}

proof fn lemma_budget_any(
    program: Seq<ItemView>,
    imports: Seq<Option<Target>>,
    visited: Set<Target>,
    universe: Set<Target>,
    budget: nat,
    more: nat,
)
    requires
        universe.finite(),
        all_targets(program).subset_of(universe),
        forall|k: int|
            0 <= k < imports.len() && (#[trigger] imports[k]) is Some ==> universe.contains(
                imports[k]->0,
            ),
        universe.difference(visited).len() < budget <= more,
    ensures
        resolve_any(program, imports, visited, budget) == resolve_any(
            program,
            imports,
            visited,
            more,
        ),
    decreases budget, imports.len() + 1,
{
    if imports.len() > 0 {
        if let Some(target) = imports[0] {
            lemma_budget(program, target, visited, universe, budget, more);
            let (found, marked) = resolve(program, target, visited, budget);
            if found is None {
                lemma_resolve_grows(program, target, visited, budget);
                assert(universe.difference(marked).subset_of(universe.difference(visited)));
                vstd::set_lib::lemma_len_subset(
                    universe.difference(marked),
                    universe.difference(visited),
                );
                let rest = imports.drop_first();
                assert forall|k: int| 0 <= k < rest.len() && (#[trigger] rest[k]) is Some implies universe.contains(
                rest[k]->0) by {
                    assert(imports[k + 1] == rest[k]);
                }
                lemma_budget_any(program, rest, marked, universe, budget, more);
            }
        }
    }
}

/// No lookup ends because its chain of imports is too long: with any greater budget it finds the
/// same function.
pub proof fn law_lookup_budget_suffices(program: Seq<ItemView>, target: Target, more: nat)
    requires
        import_count(program) + 2 <= usize::MAX,
        lookup_budget(program) <= more,
    ensures
        resolve(program, target, Set::empty(), lookup_budget(program)) == resolve(
            program,
            target,
            Set::empty(),
            more,
        ),
{
    lemma_all_targets(program);
    let universe = all_targets(program).insert(target);
    assert(universe.difference(Set::empty()) =~= universe);
    lemma_budget(program, target, Set::empty(), universe, lookup_budget(program), more);
}

/// A lookup that finds a function finds its definition: the function is the first of its name in a
/// module of the program, however many imports and other names lie between.
pub proof fn law_found_function_is_defined(
    program: Seq<ItemView>,
    target: Target,
    visited: Set<Target>,
    budget: nat,
)
    requires
        resolve(program, target, visited, budget).0 is Some,
    ensures
        exists|file_id: nat, path: Seq<Seq<char>>|
            #[trigger] defines(
                program,
                file_id,
                path,
                resolve(program, target, visited, budget).0->0,
            ),
    decreases budget, 0nat,
{
    let items = items_at(program, target.file_id, target.path)->0;
    lemma_function_name(items, target.name);
    match function_in(items, target.name) {
        Some(function) => {
            assert(defines(program, target.file_id, target.path, function));
        },
        None => {
            lemma_found_by_import(
                program,
                imports_of(items, target.name),
                visited.insert(target),
                (budget - 1) as nat,
            );
        },
    }
}

/// Whether a function is the first of its name in a module of a unit.
pub open spec fn defines(
    program: Seq<ItemView>,
    file_id: nat,
    path: Seq<Seq<char>>,
    function: FunctionView,
) -> bool {
    match items_at(program, file_id, path) {
        Some(items) => function_in(items, function.name) == Some(function),
        None => false,
    }
}

proof fn lemma_function_name(items: Seq<ItemView>, name: Seq<char>)
    ensures
        function_in(items, name) matches Some(function) ==> function.name == name,
    decreases items.len(),
{
    if items.len() > 0 {
        lemma_function_name(items.drop_first(), name);
    }
}

proof fn lemma_found_by_import(
    program: Seq<ItemView>,
    imports: Seq<Option<Target>>,
    visited: Set<Target>,
    budget: nat,
)
    requires
        resolve_any(program, imports, visited, budget).0 is Some,
    ensures
        exists|file_id: nat, path: Seq<Seq<char>>|
            #[trigger] defines(
                program,
                file_id,
                path,
                resolve_any(program, imports, visited, budget).0->0,
            ),
    decreases budget, imports.len() + 1,
{
    if let Some(target) = imports[0] {
        let (found, marked) = resolve(program, target, visited, budget);
        if found is Some {
            law_found_function_is_defined(program, target, visited, budget);
        } else {
            lemma_found_by_import(program, imports.drop_first(), marked, budget);
        }
    }
}

} // verus!
