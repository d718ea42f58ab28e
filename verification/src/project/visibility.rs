//! What the imports of a document mean in its project.

use vstd::prelude::*;

use crate::chars::{same, utf8_len};
use crate::order::{ascending, insert_text, texts};
use crate::paths::{path_starts_with, starts_with};
use crate::project::mappings::{
    lengths_descend, mapping_before, mapping_views, mappings_ascend, MappingView,
};
use crate::project::{ContextView, ProjectContext};

verus! {

impl ContextView {
    /// Whether the mappings and the directories of sources are in order.
    pub open spec fn well_formed(self) -> bool {
        mappings_ascend(self.dependencies) && lengths_descend(self.package_roots)
    }
}

/// The first of some directories that a document lies in.
pub open spec fn first_root(roots: Seq<Seq<char>>, document: Seq<char>) -> Option<Seq<char>>
    decreases roots.len(),
{
    if roots.len() == 0 {
        None
    } else if path_starts_with(document, roots[0]) {
        Some(roots[0])
    } else {
        first_root(roots.drop_first(), document)
    }
}

/// The directory of the sources of the package that a document belongs to.
pub open spec fn package_root_of(context: ContextView, document: Seq<char>) -> Seq<char> {
    match first_root(context.package_roots, document) {
        Some(root) => root,
        None => context.source_root,
    }
}

/// Whether a mapping is of an alias, and seen from a document.
pub open spec fn is_visible_as(mapping: MappingView, document: Seq<char>, alias: Seq<char>) -> bool {
    path_starts_with(document, mapping.context) && mapping.alias == alias
}

/// The first of some mappings of an alias that is seen from a document.
pub open spec fn first_visible(
    mappings: Seq<MappingView>,
    document: Seq<char>,
    alias: Seq<char>,
) -> Option<MappingView>
    decreases mappings.len(),
{
    if mappings.len() == 0 {
        None
    } else if is_visible_as(mappings[0], document, alias) {
        Some(mappings[0])
    } else {
        first_visible(mappings.drop_first(), document, alias)
    }
}

/// The directory that an alias means in a document.
pub open spec fn import_root_of(
    context: ContextView,
    document: Seq<char>,
    alias: Seq<char>,
) -> Option<Seq<char>> {
    if alias == "crate"@ {
        Some(package_root_of(context, document))
    } else {
        match first_visible(context.dependencies, document, alias) {
            Some(mapping) => Some(mapping.target),
            None => None,
        }
    }
}

/// The aliases of some mappings that are seen from a document.
pub open spec fn visible_aliases(mappings: Seq<MappingView>, document: Seq<char>) -> Set<
    Seq<char>,
> {
    Set::new(
        |alias: Seq<char>|
            exists|i: int|
                0 <= i < mappings.len() && is_visible_as(#[trigger] mappings[i], document, alias),
    )
}

/// The first visible mapping stands before every other one.
proof fn lemma_first_visible(mappings: Seq<MappingView>, document: Seq<char>, alias: Seq<char>)
    ensures
        match first_visible(mappings, document, alias) {
            Some(mapping) => exists|i: int|
                0 <= i < mappings.len() && mappings[i] == mapping && is_visible_as(
                    #[trigger] mappings[i],
                    document,
                    alias,
                ) && forall|k: int|
                    0 <= k < i ==> !is_visible_as(#[trigger] mappings[k], document, alias),
            None => forall|k: int|
                0 <= k < mappings.len() ==> !is_visible_as(
                    #[trigger] mappings[k],
                    document,
                    alias,
                ),
        },
    decreases mappings.len(),
{
    if mappings.len() > 0 && !is_visible_as(mappings[0], document, alias) {
        let rest = mappings.drop_first();
        lemma_first_visible(rest, document, alias);
        match first_visible(rest, document, alias) {
            Some(mapping) => {
                let i = choose|i: int|
                    0 <= i < rest.len() && rest[i] == mapping && is_visible_as(
                        #[trigger] rest[i],
                        document,
                        alias,
                    ) && forall|k: int|
                        0 <= k < i ==> !is_visible_as(#[trigger] rest[k], document, alias);
                assert(mappings[i + 1] == mapping);
                assert forall|k: int| 0 <= k < i + 1 implies !is_visible_as(
                    #[trigger] mappings[k],
                    document,
                    alias,
                ) by {
                    if k > 0 {
                        assert(mappings[k] == rest[k - 1]);
                    }
                }
            },
            None => {
                assert forall|k: int| 0 <= k < mappings.len() implies !is_visible_as(
                    #[trigger] mappings[k],
                    document,
                    alias,
                ) by {
                    if k > 0 {
                        assert(mappings[k] == rest[k - 1]);
                    }
                }
            },
        }
    }
}

/// Where several mappings of an alias are seen from a document, the one with the longest context
/// counts.
pub proof fn law_most_specific_mapping_counts(
    context: ContextView,
    document: Seq<char>,
    alias: Seq<char>,
    other: MappingView,
)
    requires
        context.well_formed(),
        context.dependencies.contains(other),
        is_visible_as(other, document, alias),
    ensures
        match first_visible(context.dependencies, document, alias) {
            Some(mapping) => context.dependencies.contains(mapping) && is_visible_as(
                mapping,
                document,
                alias,
            ) && utf8_len(mapping.context) >= utf8_len(other.context),
            None => false,
        },
{
    let mappings = context.dependencies;
    lemma_first_visible(mappings, document, alias);
    let j = choose|j: int| 0 <= j < mappings.len() && mappings[j] == other;
    assert(is_visible_as(mappings[j], document, alias));
    match first_visible(mappings, document, alias) {
        Some(mapping) => {
            let i = choose|i: int|
                0 <= i < mappings.len() && mappings[i] == mapping && is_visible_as(
                    #[trigger] mappings[i],
                    document,
                    alias,
                ) && forall|k: int|
                    0 <= k < i ==> !is_visible_as(#[trigger] mappings[k], document, alias);
            if i < j {
                assert(mapping_before(mappings[i], mappings[j]));
            }
        },
        None => {},
    }
}

/// Every alias that is offered means a directory, and every alias that means one is offered.
pub proof fn law_offered_aliases_resolve(
    context: ContextView,
    document: Seq<char>,
    alias: Seq<char>,
)
    requires
        alias != "crate"@,
    ensures
        visible_aliases(context.dependencies, document).contains(alias) <==> import_root_of(
            context,
            document,
            alias,
        ) is Some,
{
    lemma_first_visible(context.dependencies, document, alias);
}

/// The package of a document is the one with the longest directory that it lies in.
pub proof fn law_most_specific_package_counts(
    context: ContextView,
    document: Seq<char>,
    other: Seq<char>,
)
    requires
        context.well_formed(),
        context.package_roots.contains(other),
        path_starts_with(document, other),
    ensures
        path_starts_with(document, package_root_of(context, document)),
        utf8_len(package_root_of(context, document)) >= utf8_len(other),
{
    lemma_first_root(context.package_roots, document, other);
}

proof fn lemma_first_root(roots: Seq<Seq<char>>, document: Seq<char>, other: Seq<char>)
    requires
        lengths_descend(roots),
        roots.contains(other),
        path_starts_with(document, other),
    ensures
        match first_root(roots, document) {
            Some(root) => path_starts_with(document, root) && utf8_len(root) >= utf8_len(other),
            None => false,
        },
    decreases roots.len(),
{
    let j = choose|j: int| 0 <= j < roots.len() && roots[j] == other;
    if path_starts_with(document, roots[0]) {
        if j > 0 {
            assert(utf8_len(roots[0]) >= utf8_len(roots[j]));
        }
    } else {
        let rest = roots.drop_first();
        assert(rest[j - 1] == other);
        assert forall|a: int, b: int| 0 <= a < b < rest.len() implies utf8_len(#[trigger] rest[a])
            >= utf8_len(#[trigger] rest[b]) by {
            assert(rest[a] == roots[a + 1]);
            assert(rest[b] == roots[b + 1]);
        }
        lemma_first_root(rest, document, other);
    }
}

impl ProjectContext {
    /// The directory of the sources of the package that a document belongs to. The document is
    /// given by its canonical path where it has one.
    pub fn package_root_for(&self, document: &str) -> (r: &str)
        ensures
            r@ == package_root_of(self@, document@),
    {
        let ghost roots = self@.package_roots;
        let mut i: usize = 0;
        assert(roots.skip(0) == roots);
        while i < self.package_roots.len()
            invariant
                i <= self.package_roots@.len(),
                roots == texts(self.package_roots@),
                first_root(roots, document@) == first_root(roots.skip(i as int), document@),
            decreases self.package_roots@.len() - i,
        {
            assert(roots.skip(i as int)[0] == self.package_roots@[i as int]@);
            assert(roots.skip(i as int).drop_first() == roots.skip(i + 1));
            if starts_with(document, self.package_roots[i].as_str()) {
                return self.package_roots[i].as_str();
            }
            i = i + 1;
        }
        self.source_root.as_str()
    }

    /// The directory that an alias means in a document, which is given by its canonical path where
    /// it has one.
    pub fn import_root(&self, document: &str, alias: &str) -> (r: Option<&str>)
        ensures
            match r {
                Some(root) => import_root_of(self@, document@, alias@) == Some(root@),
                None => import_root_of(self@, document@, alias@) is None,
            },
    {
        if same(alias, "crate") {
            return Some(self.package_root_for(document));
        }
        let ghost mappings = self@.dependencies;
        let mut i: usize = 0;
        assert(mappings.skip(0) == mappings);
        while i < self.dependencies.len()
            invariant
                i <= self.dependencies@.len(),
                mappings == mapping_views(self.dependencies@),
                alias@ != "crate"@,
                import_root_of(self@, document@, alias@) == (match first_visible(
                    mappings.skip(i as int),
                    document@,
                    alias@,
                ) {
                    Some(mapping) => Some(mapping.target),
                    None => None,
                }),
            decreases self.dependencies@.len() - i,
        {
            assert(mappings.skip(i as int)[0] == self.dependencies@[i as int]@);
            assert(mappings.skip(i as int).drop_first() == mappings.skip(i + 1));
            if starts_with(document, self.dependencies[i].context.as_str()) && same(
                self.dependencies[i].alias.as_str(),
                alias,
            ) {
                return Some(self.dependencies[i].target.as_str());
            }
            i = i + 1;
        }
        None
    }

    /// The aliases that are seen from a document, each of them once and in order. A package can
    /// have a mapping and a more specific one of the same alias; [`Self::import_root`] tells which
    /// counts.
    pub fn dependency_aliases(&self, document: &str) -> (r: Vec<String>)
        ensures
            ascending(texts(r@)),
            texts(r@).to_set() == visible_aliases(self@.dependencies, document@),
    {
        let ghost mappings = self@.dependencies;
        let mut r: Vec<String> = Vec::new();
        let mut i: usize = 0;
        proof {
            assert(texts(r@) =~= Seq::<Seq<char>>::empty());
            assert(texts(r@).to_set() =~= visible_aliases(mappings.take(0), document@));
        }
        while i < self.dependencies.len()
            invariant
                i <= self.dependencies@.len(),
                mappings == mapping_views(self.dependencies@),
                ascending(texts(r@)),
                texts(r@).to_set() == visible_aliases(mappings.take(i as int), document@),
            decreases self.dependencies@.len() - i,
        {
            let ghost before = visible_aliases(mappings.take(i as int), document@);
            let ghost next = mappings.take(i + 1);
            let seen: bool = starts_with(document, self.dependencies[i].context.as_str());
            proof {
                assert(next[i as int] == self.dependencies@[i as int]@);
                assert forall|alias: Seq<char>|
                    visible_aliases(next, document@).contains(alias) == (before.contains(alias) || (
                    seen && alias == mappings[i as int].alias)) by {
                    if visible_aliases(next, document@).contains(alias) {
                        let k = choose|k: int|
                            0 <= k < next.len() && is_visible_as(
                                #[trigger] next[k],
                                document@,
                                alias,
                            );
                        if k < i {
                            assert(mappings.take(i as int)[k] == next[k]);
                        }
                    }
                    if before.contains(alias) {
                        let k = choose|k: int|
                            0 <= k < i && is_visible_as(
                                #[trigger] mappings.take(i as int)[k],
                                document@,
                                alias,
                            );
                        assert(next[k] == mappings.take(i as int)[k]);
                    }
                    if seen && alias == mappings[i as int].alias {
                        assert(is_visible_as(next[i as int], document@, alias));
                    }
                }
            }
            if seen {
                insert_text(&mut r, self.dependencies[i].alias.clone());
                assert(visible_aliases(next, document@) =~= before.insert(
                    mappings[i as int].alias,
                ));
            } else {
                assert(visible_aliases(next, document@) =~= before);
            }
            i = i + 1;
        }
        assert(mappings.take(i as int) == mappings);
        r
    }
}

} // verus!
