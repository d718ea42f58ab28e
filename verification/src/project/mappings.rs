//! What the aliases of a project mean, and from where.

use vstd::prelude::*;

use crate::chars::{byte_len, same, to_chars, utf8_len};
use crate::order::{comes_before, lemma_precedes_total, lemma_precedes_transitive, precedes, texts};

verus! {

/// An alias that means a directory, seen from the files below another.
#[derive(Debug, PartialEq, Eq)]
pub struct DependencyMapping {
    pub context: String,
    pub alias: String,
    pub target: String,
}

/// What a [`DependencyMapping`] says.
#[verifier::ext_equal]
pub struct MappingView {
    pub context: Seq<char>,
    pub alias: Seq<char>,
    pub target: Seq<char>,
}

impl View for DependencyMapping {
    type V = MappingView;

    open spec fn view(&self) -> MappingView {
        MappingView { context: self.context@, alias: self.alias@, target: self.target@ }
    }
}

/// What a list of mappings says.
pub open spec fn mapping_views(list: Seq<DependencyMapping>) -> Seq<MappingView> {
    Seq::new(list.len(), |i: int| list[i]@)
}

/// Whether a character comes before another in the order of paths, in which a slash comes first.
pub open spec fn path_char_first(a: char, b: char) -> bool {
    b != '/' && (a == '/' || a < b)
}

/// Whether `a` comes before `b` in the order of paths by their components.
pub open spec fn path_precedes(a: Seq<char>, b: Seq<char>) -> bool
    decreases a.len(),
{
    if b.len() == 0 {
        false
    } else if a.len() == 0 {
        true
    } else if a[0] == b[0] {
        path_precedes(a.drop_first(), b.drop_first())
    } else {
        path_char_first(a[0], b[0])
    }
}

/// No path comes before itself, and of two different paths exactly one comes first.
proof fn lemma_path_precedes_total(a: Seq<char>, b: Seq<char>)
    ensures
        a == b ==> !path_precedes(a, b),
        a != b ==> path_precedes(a, b) != path_precedes(b, a),
    decreases a.len(),
{
    if a.len() > 0 && b.len() > 0 {
        lemma_path_precedes_total(a.drop_first(), b.drop_first());
        if a[0] == b[0] && a.drop_first() == b.drop_first() {
            assert(a == seq![a[0]] + a.drop_first());
            assert(b == seq![b[0]] + b.drop_first());
        }
    } else if a.len() == 0 && b.len() == 0 {
        assert(a == b);
    }
}

/// The order of paths is transitive.
proof fn lemma_path_precedes_transitive(a: Seq<char>, b: Seq<char>, c: Seq<char>)
    requires
        path_precedes(a, b),
        path_precedes(b, c),
    ensures
        path_precedes(a, c),
    decreases a.len(),
{
    if a.len() > 0 && a[0] == b[0] && b[0] == c[0] {
        lemma_path_precedes_transitive(a.drop_first(), b.drop_first(), c.drop_first());
    }
}

/// Whether the first path comes before the second.
fn path_comes_before(a: &str, b: &str) -> (r: bool)
    ensures
        r == path_precedes(a@, b@),
{
    let x: Vec<char> = to_chars(a);
    let y: Vec<char> = to_chars(b);
    let mut i: usize = 0;
    assert(x@.skip(0) == x@);
    assert(y@.skip(0) == y@);
    while i < x.len() && i < y.len() && x[i] == y[i]
        invariant
            i <= x@.len(),
            i <= y@.len(),
            path_precedes(x@, y@) == path_precedes(x@.skip(i as int), y@.skip(i as int)),
        decreases x@.len() - i,
    {
        assert(x@.skip(i as int).drop_first() == x@.skip(i + 1));
        assert(y@.skip(i as int).drop_first() == y@.skip(i + 1));
        i = i + 1;
    }
    if i >= y.len() {
        false
    } else if i >= x.len() {
        true
    } else {
        y[i] != '/' && (x[i] == '/' || x[i] < y[i])
    }
}

/// Whether two mappings are of the same alias, seen from the same directory.
pub open spec fn same_key(a: MappingView, b: MappingView) -> bool {
    a.context == b.context && a.alias == b.alias
}

/// Whether `a` comes before `b`: the longer context first, then by alias, then by context.
pub open spec fn mapping_before(a: MappingView, b: MappingView) -> bool {
    if utf8_len(a.context) != utf8_len(b.context) {
        utf8_len(a.context) > utf8_len(b.context)
    } else if a.alias != b.alias {
        precedes(a.alias, b.alias)
    } else {
        path_precedes(a.context, b.context)
    }
}

/// Of two mappings with different keys exactly one comes first.
pub proof fn lemma_mapping_total(a: MappingView, b: MappingView)
    ensures
        same_key(a, b) ==> !mapping_before(a, b),
        !same_key(a, b) ==> mapping_before(a, b) != mapping_before(b, a),
{
    lemma_precedes_total(a.alias, b.alias);
    lemma_path_precedes_total(a.context, b.context);
}

/// The order of mappings is transitive.
pub proof fn lemma_mapping_transitive(a: MappingView, b: MappingView, c: MappingView)
    requires
        mapping_before(a, b),
        mapping_before(b, c),
    ensures
        mapping_before(a, c),
{
    if utf8_len(a.context) == utf8_len(b.context) && utf8_len(b.context) == utf8_len(c.context) {
        if a.alias == b.alias && b.alias == c.alias {
            lemma_path_precedes_transitive(a.context, b.context, c.context);
        } else if a.alias != b.alias && b.alias != c.alias {
            lemma_precedes_transitive(a.alias, b.alias, c.alias);
            lemma_precedes_total(a.alias, c.alias);
        }
    }
}

/// Whether each mapping comes before every later one.
pub open spec fn mappings_ascend(list: Seq<MappingView>) -> bool {
    forall|i: int, j: int|
        0 <= i < j < list.len() ==> mapping_before(#[trigger] list[i], #[trigger] list[j])
}

/// The index of the first mapping that does not come before `mapping`.
pub open spec fn mapping_place(list: Seq<MappingView>, mapping: MappingView) -> int
    decreases list.len(),
{
    if list.len() == 0 || !mapping_before(list[0], mapping) {
        0
    } else {
        1 + mapping_place(list.drop_first(), mapping)
    }
}

/// The mappings with one more. It takes the place of one with the same key.
pub open spec fn with_mapping(list: Seq<MappingView>, mapping: MappingView) -> Seq<MappingView> {
    let i = mapping_place(list, mapping);
    if i < list.len() && same_key(list[i], mapping) {
        list.update(i, mapping)
    } else {
        list.insert(i, mapping)
    }
}

/// Where the place of a mapping lies.
proof fn lemma_mapping_place(list: Seq<MappingView>, mapping: MappingView)
    ensures
        0 <= mapping_place(list, mapping) <= list.len(),
        mapping_place(list, mapping) < list.len() ==> !mapping_before(
            list[mapping_place(list, mapping)],
            mapping,
        ),
        forall|k: int|
            0 <= k < mapping_place(list, mapping) ==> mapping_before(#[trigger] list[k], mapping),
    decreases list.len(),
{
    if list.len() > 0 && mapping_before(list[0], mapping) {
        let rest = list.drop_first();
        lemma_mapping_place(rest, mapping);
        assert forall|k: int| 0 <= k < mapping_place(list, mapping) implies mapping_before(
            #[trigger] list[k],
            mapping,
        ) by {
            if k > 0 {
                assert(list[k] == rest[k - 1]);
            }
        }
    }
}

/// Adding a mapping overrides the one with its key and leaves all others, and keeps the order.
pub proof fn law_mapping_overrides(list: Seq<MappingView>, mapping: MappingView, other: MappingView)
    requires
        mappings_ascend(list),
    ensures
        mappings_ascend(with_mapping(list, mapping)),
        with_mapping(list, mapping).contains(mapping),
        same_key(other, mapping) && with_mapping(list, mapping).contains(other) ==> other
            == mapping,
        !same_key(other, mapping) ==> (with_mapping(list, mapping).contains(other)
            <==> list.contains(other)),
{
    let after = with_mapping(list, mapping);
    let at = mapping_place(list, mapping);
    lemma_mapping_place(list, mapping);
    let found = at < list.len() && same_key(list[at], mapping);
    if at < list.len() {
        lemma_mapping_total(list[at], mapping);
    }
    assert forall|i: int, j: int| 0 <= i < j < after.len() implies mapping_before(
        #[trigger] after[i],
        #[trigger] after[j],
    ) by {
        if found {
            if i == at {
                assert(after[j] == list[j]);
                assert(mapping_before(list[i], list[j]));
            } else if j == at {
                assert(after[i] == list[i]);
            } else {
                assert(after[i] == list[i]);
                assert(after[j] == list[j]);
            }
        } else if j < at {
            assert(after[i] == list[i]);
            assert(after[j] == list[j]);
        } else if j == at {
            assert(after[i] == list[i]);
        } else if i < at {
            assert(after[i] == list[i]);
            assert(after[j] == list[j - 1]);
            assert(mapping_before(list[i], list[j - 1]));
        } else if i == at {
            assert(after[j] == list[j - 1]);
            if j - 1 > at {
                assert(mapping_before(list[at], list[j - 1]));
                lemma_mapping_transitive(mapping, list[at], list[j - 1]);
            }
        } else {
            assert(after[i] == list[i - 1]);
            assert(after[j] == list[j - 1]);
        }
    }
    assert(after[at] == mapping);
    if same_key(other, mapping) && after.contains(other) {
        let k = choose|k: int| 0 <= k < after.len() && after[k] == other;
        lemma_mapping_total(other, mapping);
        lemma_mapping_total(mapping, other);
        if k < at {
            assert(mapping_before(after[k], after[at]));
        } else if k > at {
            assert(mapping_before(after[at], after[k]));
        }
    }
    if !same_key(other, mapping) {
        if after.contains(other) {
            let k = choose|k: int| 0 <= k < after.len() && after[k] == other;
            if found || k < at {
                assert(list[k] == other);
            } else {
                assert(list[k - 1] == other);
            }
        }
        if list.contains(other) {
            let k = choose|k: int| 0 <= k < list.len() && list[k] == other;
            if found || k < at {
                assert(after[k] == other);
            } else {
                assert(after[k + 1] == other);
            }
        }
    }
}

/// Adds a mapping, in the place of one with the same key.
pub fn insert_mapping(list: &mut Vec<DependencyMapping>, mapping: DependencyMapping)
    ensures
        mapping_views(final(list)@) == with_mapping(mapping_views(old(list)@), mapping@),
{
    let ghost before = mapping_views(list@);
    let ghost view = mapping@;
    let mut i: usize = 0;
    assert(before.skip(0) == before);
    while i < list.len() && is_before(&list[i], &mapping)
        invariant
            i <= list@.len(),
            before == mapping_views(list@),
            mapping_place(before, mapping@) == i + mapping_place(before.skip(i as int), mapping@),
        decreases list@.len() - i,
    {
        assert(before.skip(i as int)[0] == list@[i as int]@);
        assert(before.skip(i as int).drop_first() == before.skip(i + 1));
        i = i + 1;
    }
    proof {
        if i < list@.len() {
            assert(before.skip(i as int)[0] == list@[i as int]@);
        }
    }
    if i < list.len() && same(list[i].context.as_str(), mapping.context.as_str()) && same(
        list[i].alias.as_str(),
        mapping.alias.as_str(),
    ) {
        list.set(i, mapping);
        assert(mapping_views(list@) =~= before.update(i as int, view));
    } else {
        list.insert(i, mapping);
        assert(mapping_views(list@) =~= before.insert(i as int, view));
    }
}

/// Whether the first mapping comes before the second.
fn is_before(a: &DependencyMapping, b: &DependencyMapping) -> (r: bool)
    ensures
        r == mapping_before(a@, b@),
{
    let m: usize = byte_len(a.context.as_str());
    let n: usize = byte_len(b.context.as_str());
    if m != n {
        m > n
    } else if !same(a.alias.as_str(), b.alias.as_str()) {
        comes_before(a.alias.as_str(), b.alias.as_str())
    } else {
        path_comes_before(a.context.as_str(), b.context.as_str())
    }
}

/// The index of the first path that is shorter than `path`.
pub open spec fn root_place(list: Seq<Seq<char>>, path: Seq<char>) -> int
    decreases list.len(),
{
    if list.len() == 0 || utf8_len(list[0]) < utf8_len(path) {
        0
    } else {
        1 + root_place(list.drop_first(), path)
    }
}

/// The roots of packages with one more, unless it is there: the longer ones first.
pub open spec fn with_root(list: Seq<Seq<char>>, path: Seq<char>) -> Seq<Seq<char>> {
    if list.contains(path) {
        list
    } else {
        list.insert(root_place(list, path), path)
    }
}

/// Whether no path is followed by a longer one.
pub open spec fn lengths_descend(list: Seq<Seq<char>>) -> bool {
    forall|i: int, j: int|
        0 <= i < j < list.len() ==> utf8_len(#[trigger] list[i]) >= utf8_len(#[trigger] list[j])
}

/// Where the place of a root lies.
proof fn lemma_root_place(list: Seq<Seq<char>>, path: Seq<char>)
    ensures
        0 <= root_place(list, path) <= list.len(),
        root_place(list, path) < list.len() ==> utf8_len(list[root_place(list, path)]) < utf8_len(
            path,
        ),
        forall|k: int|
            0 <= k < root_place(list, path) ==> utf8_len(#[trigger] list[k]) >= utf8_len(path),
    decreases list.len(),
{
    if list.len() > 0 && utf8_len(list[0]) >= utf8_len(path) {
        let rest = list.drop_first();
        lemma_root_place(rest, path);
        assert forall|k: int| 0 <= k < root_place(list, path) implies utf8_len(#[trigger] list[k])
            >= utf8_len(path) by {
            if k > 0 {
                assert(list[k] == rest[k - 1]);
            }
        }
    }
}

/// Adding a root keeps the longer ones first.
pub proof fn lemma_lengths_descend(list: Seq<Seq<char>>, path: Seq<char>)
    requires
        lengths_descend(list),
    ensures
        lengths_descend(with_root(list, path)),
{
    let after = with_root(list, path);
    let at = root_place(list, path);
    lemma_root_place(list, path);
    if !list.contains(path) {
        assert forall|i: int, j: int| 0 <= i < j < after.len() implies utf8_len(#[trigger] after[i])
            >= utf8_len(#[trigger] after[j]) by {
            if j < at {
                assert(after[i] == list[i]);
                assert(after[j] == list[j]);
            } else if j == at {
                assert(after[i] == list[i]);
            } else if i < at {
                assert(after[i] == list[i]);
                assert(after[j] == list[j - 1]);
            } else if i == at {
                assert(after[j] == list[j - 1]);
                if j - 1 > at {
                    assert(utf8_len(list[at]) >= utf8_len(list[j - 1]));
                }
            } else {
                assert(after[i] == list[i - 1]);
                assert(after[j] == list[j - 1]);
            }
        }
    }
}

/// A root that is added is there, as are all that were, and none is there twice.
pub proof fn law_root_is_kept(list: Seq<Seq<char>>, path: Seq<char>, other: Seq<char>)
    requires
        list.no_duplicates(),
    ensures
        with_root(list, path).no_duplicates(),
        with_root(list, path).contains(other) <==> list.contains(other) || other == path,
{
    let after = with_root(list, path);
    let at = root_place(list, path);
    lemma_root_place(list, path);
    if !list.contains(path) {
        assert(after[at] == path);
        if list.contains(other) {
            let k = choose|k: int| 0 <= k < list.len() && list[k] == other;
            let moved = if k < at {
                k
            } else {
                k + 1
            };
            assert(after[moved] == other);
        }
        if after.contains(other) && other != path {
            let k = choose|k: int| 0 <= k < after.len() && after[k] == other;
            let moved = if k < at {
                k
            } else {
                k - 1
            };
            assert(list[moved] == other);
        }
        assert forall|i: int, j: int| 0 <= i < after.len() && 0 <= j < after.len() && i
            != j implies after[i] != after[j] by {
            let x = if i < at {
                i
            } else {
                i - 1
            };
            let y = if j < at {
                j
            } else {
                j - 1
            };
            if i != at {
                assert(after[i] == list[x]);
            }
            if j != at {
                assert(after[j] == list[y]);
            }
        }
    }
}

/// Adds the root of a package, unless it is there.
pub fn insert_root(list: &mut Vec<String>, path: String)
    ensures
        texts(final(list)@) == with_root(texts(old(list)@), path@),
{
    if crate::order::contains_text(list.as_slice(), path.as_str()) {
        return ;
    }
    let ghost before = texts(list@);
    let ghost view = path@;
    let length: usize = byte_len(path.as_str());
    let mut i: usize = 0;
    assert(before.skip(0) == before);
    while i < list.len() && byte_len(list[i].as_str()) >= length
        invariant
            i <= list@.len(),
            before == texts(list@),
            length == utf8_len(path@),
            root_place(before, path@) == i + root_place(before.skip(i as int), path@),
        decreases list@.len() - i,
    {
        assert(before.skip(i as int)[0] == list@[i as int]@);
        assert(before.skip(i as int).drop_first() == before.skip(i + 1));
        i = i + 1;
    }
    proof {
        if i < list@.len() {
            assert(before.skip(i as int)[0] == list@[i as int]@);
        }
    }
    list.insert(i, path);
    assert(texts(list@) =~= before.insert(i as int, view));
}

} // verus!
