//! What holds of the dependencies of a package: where they are found, and what their names mean.

use vstd::prelude::*;

use std::hash::DefaultHasher;
use vstd::std_specs::hash::DefaultHasherAdditionalSpecFns;
use vstd::utf8::encode_utf8;

use crate::numbers::hex_digits;
use crate::path_laws::names_entry;
use crate::paths::path_join;
use crate::project::collector::{
    collected_from, dependency_package, dependency_root, law_dependencies_are_collected_in_depth,
    unvisited, with_package, with_visit, CollectedView, Package,
};
use crate::project::discovery_laws::{
    has_manifest, holds_manifest, law_manifest_has_two_names, leads_to,
};
use crate::project::disk::{DependencyConfig, Disk, StopView};
use crate::project::error::ErrorView;
use crate::project::git::{numbered_directory, repository_directory};
use crate::project::mappings::{
    law_mapping_overrides, mappings_ascend, with_mapping, MappingView,
};
use crate::split::{last_index, lemma_last_index};

verus! {

/// Whether a directory is known to hold a package: a manifest, and the sources that it names.
pub open spec fn holds_package(disk: Disk, package: Package) -> bool {
    &&& has_manifest(disk, package.root)
    &&& holds_manifest(disk, path_join(package.root, "Simplex.toml"@), package.config)
    &&& leads_to(disk, path_join(package.root, package.config.src_dir@), package.source)
}

/// A dependency that is given by a path is the package in that directory, seen from the package
/// that names it.
pub proof fn law_path_leads_to_package(
    disk: Disk,
    install_root: Seq<char>,
    package_root: Seq<char>,
    name: Seq<char>,
    dependency: DependencyConfig,
    package: Package,
)
    requires
        dependency.path is Some,
        dependency.git is None,
        dependency.rev is None,
        dependency.tag is None,
        leads_to(disk, path_join(package_root, dependency.path->0@), package.root),
        holds_package(disk, package),
    ensures
        dependency_package(disk, install_root, package_root, name, dependency) == Ok::<
            Package,
            StopView,
        >(package),
{
    law_manifest_has_two_names(disk, package.root);
}

/// A dependency that is given by the URL of a repository is the package that is installed for it,
/// below the project's own directory whatever package names it.
pub proof fn law_repository_is_installed_below_project(
    disk: Disk,
    install_root: Seq<char>,
    package_root: Seq<char>,
    name: Seq<char>,
    dependency: DependencyConfig,
    directory: Seq<char>,
    package: Package,
)
    requires
        dependency.path is None,
        dependency.git is Some,
        dependency.rev is None || dependency.tag is None,
        repository_directory(
            dependency.git->0@,
            match (dependency.rev, dependency.tag) {
                (Some(rev), _) => Some(rev@),
                (None, Some(tag)) => Some(tag@),
                (None, None) => None,
            },
        ) == Ok::<Seq<char>, ErrorView>(directory),
        leads_to(disk, path_join(path_join(install_root, "deps"@), directory), package.root),
        holds_package(disk, package),
    ensures
        dependency_package(disk, install_root, package_root, name, dependency) == Ok::<
            Package,
            StopView,
        >(package),
{
    law_manifest_has_two_names(disk, package.root);
}

/// A dependency is given by a path or by a repository and not by both, and a repository at a
/// revision or at a tag and not at both.
pub proof fn law_dependency_has_one_origin(
    disk: Disk,
    install_root: Seq<char>,
    package_root: Seq<char>,
    name: Seq<char>,
    dependency: DependencyConfig,
)
    ensures
        (dependency.path is Some <==> dependency.git is Some) || (dependency.path is Some && (
        dependency.rev is Some || dependency.tag is Some)) || (dependency.rev is Some
            && dependency.tag is Some) ==> dependency_root(
            disk,
            install_root,
            package_root,
            name,
            dependency,
        ) == Err::<Seq<char>, StopView>(
            StopView::Failed(
                ErrorView::InvalidDependency {
                    name,
                    manifest: path_join(package_root, "Simplex.toml"@),
                },
            ),
        ),
{
}

/// Whether a text ends as the URL of a bare repository does.
pub open spec fn ends_bare(text: Seq<char>) -> bool {
    let n = text.len() as int;
    n >= 4 && text[n - 4] == '.' && text[n - 3] == 'g' && text[n - 2] == 'i' && text[n - 1] == 't'
}

/// The index of the slash before a name.
proof fn lemma_slash(address: Seq<char>, name: Seq<char>)
    requires
        names_entry(name),
    ensures
        last_index(address.push('/') + name, '/') == address.len(),
{
    let text = address.push('/') + name;
    lemma_last_index(text, '/');
    let at = last_index(text, '/');
    assert(text[address.len() as int] == '/');
    if at > address.len() {
        assert(text[at] == name[at - address.len() - 1]);
    }
}

/// A repository is installed in a directory with the last part of its URL, with or without the
/// ending of a bare repository, a hyphen, and a number of sixteen digits.
pub proof fn law_repository_keeps_its_name(address: Seq<char>, name: Seq<char>, number: u64)
    requires
        names_entry(name),
        !ends_bare(name),
    ensures
        numbered_directory(address.push('/') + name, number) == Ok::<Seq<char>, ErrorView>(
            name + seq!['-'] + hex_digits(number as nat, 16),
        ),
        numbered_directory(address.push('/') + name + seq!['.', 'g', 'i', 't'], number) == Ok::<
            Seq<char>,
            ErrorView,
        >(name + seq!['-'] + hex_digits(number as nat, 16)),
{
    reveal_strlit(".git");
    reveal_strlit("-");
    let url = address.push('/') + name;
    let bare = url + seq!['.', 'g', 'i', 't'];
    let n = url.len() as int;
    assert("-"@ =~= seq!['-']);
    assert(bare.skip(n) =~= ".git"@);
    assert(bare.take(n) =~= url);
    if n >= 4 && url.skip(n - 4) == ".git"@ {
        let end = url.skip(n - 4);
        assert(end[0] == '.' && end[1] == 'g' && end[2] == 'i' && end[3] == 't');
        assert(url[n - 4] == '.' && url[n - 3] == 'g' && url[n - 2] == 'i' && url[n - 1] == 't');
        if name.len() < 4 {
            assert(url[address.len() as int] == '/');
        } else {
            assert(name[name.len() - 4] == url[n - 4]);
            assert(name[name.len() - 3] == url[n - 3]);
            assert(name[name.len() - 2] == url[n - 2]);
            assert(name[name.len() - 1] == url[n - 1]);
        }
    }
    lemma_slash(address, name);
    assert(url.skip(address.len() as int + 1) =~= name);
}

/// A URL that ends with a slash names no repository.
pub proof fn law_repository_needs_a_name(address: Seq<char>, number: u64)
    ensures
        numbered_directory(address.push('/'), number) == Err::<Seq<char>, ErrorView>(
            ErrorView::InvalidGitUrl(address.push('/')),
        ),
{
    reveal_strlit(".git");
    let url = address.push('/');
    let n = url.len() as int;
    lemma_last_index(url, '/');
    if n >= 4 {
        assert(url.skip(n - 4)[3] == '/');
        assert(".git"@[3] == 't');
    }
    assert(url[n - 1] == '/');
    assert(last_index(url, '/') == n - 1);
    assert(url.skip(n) =~= Seq::<char>::empty());
}

/// The number of a repository is that of its URL and of what is installed of it, which is its head
/// where nothing is said.
pub proof fn law_repository_is_numbered(url: Seq<char>, reference: Seq<char>)
    ensures
        repository_directory(url, Some(reference)) == numbered_directory(
            url,
            DefaultHasher::spec_finish(
                seq![encode_utf8(url + seq!['@'] + reference), seq![0xffu8]],
            ),
        ),
        repository_directory(url, None) == repository_directory(
            url,
            Some(seq!['H', 'E', 'A', 'D']),
        ),
{
    reveal_strlit("@");
    reveal_strlit("HEAD");
    assert("@"@ =~= seq!['@']);
    assert("HEAD"@ =~= seq!['H', 'E', 'A', 'D']);
}

/// Whether a list has a mapping of an alias that is seen from a directory.
pub open spec fn maps(mappings: Seq<MappingView>, context: Seq<char>, alias: Seq<char>) -> bool {
    exists|i: int|
        0 <= i < mappings.len() && (#[trigger] mappings[i]).context == context && mappings[i].alias
            == alias
}

/// A list with one more mapping maps what it did, and that.
proof fn lemma_maps_more(list: Seq<MappingView>, mapping: MappingView)
    requires
        mappings_ascend(list),
    ensures
        maps(with_mapping(list, mapping), mapping.context, mapping.alias),
        forall|context: Seq<char>, alias: Seq<char>| #[trigger]
            maps(list, context, alias) ==> maps(
                with_mapping(list, mapping),
                context,
                alias,
            ),
{
    let more = with_mapping(list, mapping);
    law_mapping_overrides(list, mapping, mapping);
    let at = choose|at: int| 0 <= at < more.len() && more[at] == mapping;
    assert(more[at].context == mapping.context);
    assert forall|context: Seq<char>, alias: Seq<char>| #[trigger]
        maps(list, context, alias) implies maps(more, context, alias) by {
        let i = choose|i: int|
            0 <= i < list.len() && (#[trigger] list[i]).context == context && list[i].alias
                == alias;
        law_mapping_overrides(list, mapping, list[i]);
        if mapping.context == context && mapping.alias == alias {
            assert(more[at].context == context);
        } else {
            assert(list.contains(list[i]));
            let k = choose|k: int| 0 <= k < more.len() && more[k] == list[i];
            assert(more[k].context == context);
        }
    }
}

/// Every dependency of a package gets a meaning for the files of that package, and so does every
/// dependency of one that is looked into. No meaning that was there is lost.
proof fn lemma_dependencies_are_mapped(
    disk: Disk,
    collected: CollectedView,
    dependencies: Seq<(Seq<char>, DependencyConfig)>,
    i: int,
    package_root: Seq<char>,
    source_root: Seq<char>,
)
    requires
        mappings_ascend(collected.mappings),
        0 <= i <= dependencies.len(),
    ensures
        collected_from(disk, collected, dependencies, i, package_root, source_root) matches Ok(
            result,
        ) ==> {
            &&& mappings_ascend(result.mappings)
            &&& forall|context: Seq<char>, alias: Seq<char>| #[trigger]
                maps(collected.mappings, context, alias) ==> maps(result.mappings, context, alias)
            &&& forall|j: int|
                i <= j < dependencies.len() ==> maps(
                    result.mappings,
                    source_root,
                    (#[trigger] dependencies[j]).0,
                )
        },
    decreases unvisited(disk.canonical@, collected.visited), dependencies.len() - i,
{
    if i < dependencies.len() {
        let (name, dependency) = dependencies[i];
        if let Ok(package) = dependency_package(
            disk,
            collected.install_root,
            package_root,
            name,
            dependency,
        ) {
            let found = with_package(collected, source_root, name, package);
            let mapping = MappingView { context: source_root, alias: name, target: package.source };
            law_mapping_overrides(collected.mappings, mapping, mapping);
            lemma_maps_more(collected.mappings, mapping);
            if collected.visited.contains(package.root) {
                lemma_dependencies_are_mapped(
                    disk,
                    found,
                    dependencies,
                    i + 1,
                    package_root,
                    source_root,
                );
            } else {
                law_dependencies_are_collected_in_depth(
                    disk,
                    collected,
                    dependencies,
                    i,
                    package_root,
                    source_root,
                    package,
                );
                let begun = with_visit(found, package.root);
                lemma_dependencies_are_mapped(
                    disk,
                    begun,
                    package.config.dependencies@,
                    0,
                    package.root,
                    package.source,
                );
                if let Ok(inner) = collected_from(
                    disk,
                    begun,
                    package.config.dependencies@,
                    0,
                    package.root,
                    package.source,
                ) {
                    lemma_dependencies_are_mapped(
                        disk,
                        inner,
                        dependencies,
                        i + 1,
                        package_root,
                        source_root,
                    );
                }
            }
        }
    }
}

/// Every dependency of a package means something in the files of that package.
pub proof fn law_every_dependency_has_a_meaning(
    disk: Disk,
    collected: CollectedView,
    dependencies: Seq<(Seq<char>, DependencyConfig)>,
    package_root: Seq<char>,
    source_root: Seq<char>,
    j: int,
)
    requires
        mappings_ascend(collected.mappings),
        0 <= j < dependencies.len(),
    ensures
        collected_from(disk, collected, dependencies, 0, package_root, source_root) matches Ok(
            result,
        ) ==> maps(result.mappings, source_root, dependencies[j].0),
{
    lemma_dependencies_are_mapped(disk, collected, dependencies, 0, package_root, source_root);
}

/// Every dependency of a dependency that was not looked into means something in the files of that
/// dependency.
pub proof fn law_dependencies_of_dependencies_have_a_meaning(
    disk: Disk,
    collected: CollectedView,
    dependencies: Seq<(Seq<char>, DependencyConfig)>,
    i: int,
    package_root: Seq<char>,
    source_root: Seq<char>,
    package: Package,
    j: int,
)
    requires
        mappings_ascend(collected.mappings),
        0 <= i < dependencies.len(),
        dependency_package(
            disk,
            collected.install_root,
            package_root,
            dependencies[i].0,
            dependencies[i].1,
        ) == Ok::<Package, StopView>(package),
        !collected.visited.contains(package.root),
        0 <= j < package.config.dependencies@.len(),
    ensures
        collected_from(disk, collected, dependencies, i, package_root, source_root) matches Ok(
            result,
        ) ==> maps(result.mappings, package.source, package.config.dependencies@[j].0),
{
    let name = dependencies[i].0;
    let mapping = MappingView { context: source_root, alias: name, target: package.source };
    law_mapping_overrides(collected.mappings, mapping, mapping);
    let begun = with_visit(with_package(collected, source_root, name, package), package.root);
    law_dependencies_are_collected_in_depth(
        disk,
        collected,
        dependencies,
        i,
        package_root,
        source_root,
        package,
    );
    lemma_dependencies_are_mapped(
        disk,
        begun,
        package.config.dependencies@,
        0,
        package.root,
        package.source,
    );
    if let Ok(inner) = collected_from(
        disk,
        begun,
        package.config.dependencies@,
        0,
        package.root,
        package.source,
    ) {
        lemma_dependencies_are_mapped(
            disk,
            inner,
            dependencies,
            i + 1,
            package_root,
            source_root,
        );
    }
}

/// Whether a dependency is found in a package that has no dependencies of its own.
pub open spec fn is_leaf(
    disk: Disk,
    install_root: Seq<char>,
    package_root: Seq<char>,
    entry: (Seq<char>, DependencyConfig),
) -> bool {
    dependency_package(disk, install_root, package_root, entry.0, entry.1) matches Ok(package)
        && package.config.dependencies@.len() == 0
}

/// The mapping of a dependency that is found.
pub open spec fn leaf_mapping(
    disk: Disk,
    install_root: Seq<char>,
    package_root: Seq<char>,
    source_root: Seq<char>,
    entry: (Seq<char>, DependencyConfig),
) -> MappingView {
    MappingView {
        context: source_root,
        alias: entry.0,
        target: dependency_package(
            disk,
            install_root,
            package_root,
            entry.0,
            entry.1,
        )->Ok_0.source,
    }
}

/// A package whose dependencies have none of their own is collected, and the name of each of them
/// means the sources of its own package.
pub proof fn law_dependencies_mean_their_packages(
    disk: Disk,
    collected: CollectedView,
    dependencies: Seq<(Seq<char>, DependencyConfig)>,
    i: int,
    package_root: Seq<char>,
    source_root: Seq<char>,
)
    requires
        mappings_ascend(collected.mappings),
        0 <= i <= dependencies.len(),
        forall|a: int, b: int|
            0 <= a < b < dependencies.len() ==> (#[trigger] dependencies[a]).0 != (
            #[trigger] dependencies[b]).0,
        forall|j: int|
            0 <= j < dependencies.len() ==> is_leaf(
                disk,
                collected.install_root,
                package_root,
                #[trigger] dependencies[j],
            ),
    ensures
        collected_from(disk, collected, dependencies, i, package_root, source_root) matches Ok(
            result,
        ) && {
            &&& mappings_ascend(result.mappings)
            &&& forall|j: int|
                i <= j < dependencies.len() ==> result.mappings.contains(
                    leaf_mapping(
                        disk,
                        collected.install_root,
                        package_root,
                        source_root,
                        #[trigger] dependencies[j],
                    ),
                )
            &&& forall|other: MappingView| #[trigger]
                collected.mappings.contains(other) && (other.context != source_root || forall|
                    j: int,
                |
                    i <= j < dependencies.len() ==> (#[trigger] dependencies[j]).0 != other.alias)
                    ==> result.mappings.contains(other)
        },
    decreases dependencies.len() - i,
{
    if i < dependencies.len() {
        assert(is_leaf(disk, collected.install_root, package_root, dependencies[i]));
        let (name, dependency) = dependencies[i];
        let package = dependency_package(
            disk,
            collected.install_root,
            package_root,
            name,
            dependency,
        )->Ok_0;
        let found = with_package(collected, source_root, name, package);
        let mapping = MappingView { context: source_root, alias: name, target: package.source };
        law_mapping_overrides(collected.mappings, mapping, mapping);
        assert forall|other: MappingView| #[trigger]
            collected.mappings.contains(other) && (other.context != source_root || other.alias
                != name) implies found.mappings.contains(other) by {
            law_mapping_overrides(collected.mappings, mapping, other);
        }
        let next = if collected.visited.contains(package.root) {
            found
        } else {
            with_visit(found, package.root)
        };
        if !collected.visited.contains(package.root) {
            law_dependencies_are_collected_in_depth(
                disk,
                collected,
                dependencies,
                i,
                package_root,
                source_root,
                package,
            );
            assert(collected_from(
                disk,
                next,
                package.config.dependencies@,
                0,
                package.root,
                package.source,
            ) == Ok::<CollectedView, StopView>(next));
        }
        law_dependencies_mean_their_packages(
            disk,
            next,
            dependencies,
            i + 1,
            package_root,
            source_root,
        );
        let result = collected_from(
            disk,
            collected,
            dependencies,
            i,
            package_root,
            source_root,
        )->Ok_0;
        assert(found.mappings.contains(mapping));
        assert forall|j: int| i <= j < dependencies.len() implies result.mappings.contains(
            leaf_mapping(
                disk,
                collected.install_root,
                package_root,
                source_root,
                #[trigger] dependencies[j],
            ),
        ) by {
            if j == i {
                assert(next.mappings.contains(mapping));
            }
        }
        assert forall|other: MappingView| #[trigger]
            collected.mappings.contains(other) && (other.context != source_root || forall|j: int|
                i <= j < dependencies.len() ==> (#[trigger] dependencies[j]).0 != other.alias)
            implies result.mappings.contains(other) by {
            if other.context == source_root {
                assert(dependencies[i].0 != other.alias);
            }
            assert(next.mappings.contains(other));
        }
    }
}

} // verus!
