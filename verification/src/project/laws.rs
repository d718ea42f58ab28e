//! What holds of every search through a project.

use vstd::prelude::*;

use crate::config::{ManualDependency, ProjectSettings};
use crate::order::{lemma_precedes_total, precedes};
use crate::paths::{lemma_parent_is_shorter, path_join, path_parent};
use crate::project::collector::{
    collected_from, dependency_package, dependency_root, law_dependencies_are_collected_in_depth,
    manifest_inside, unvisited, with_package, with_visit, CollectedView,
};
use crate::project::disk::{
    agree_on, canonical_of, extends, is_directory_at, is_file_at, knows, manifest_of,
    DependencyConfig, Disk, QuestionView, SimplexConfig, StopView,
};
use crate::project::mappings::{
    law_mapping_overrides, law_root_is_kept, lemma_lengths_descend, lengths_descend,
    mappings_ascend, same_key, with_mapping, with_root, MappingView,
};
use crate::project::{
    all_collected, discovered, existing, existing_ancestor, manifest_above, nothing_collected,
    project_manifest, project_root, source_root_of, with_all_manual, with_manual,
    workspace_root_of,
};
use crate::text_map::keys_ascend;

verus! {

/// Whether a search came to an end, or asked something that is not known.
pub open spec fn asks_the_unknown<T>(disk: Disk, r: Result<T, StopView>) -> bool {
    match r {
        Err(StopView::Asked(question)) => !knows(disk, question),
        _ => true,
    }
}

/// Whether a search came to an end.
pub open spec fn has_ended<T>(r: Result<T, StopView>) -> bool {
    match r {
        Err(StopView::Asked(_)) => false,
        _ => true,
    }
}

/// What is known of one path is known of it on a disk of which more is known.
proof fn lemma_answers_stay(less: Disk, more: Disk, path: Seq<char>)
    requires
        extends(less, more),
    ensures
        has_ended(canonical_of(less, path)) ==> canonical_of(more, path) == canonical_of(
            less,
            path,
        ),
        has_ended(is_file_at(less, path)) ==> is_file_at(more, path) == is_file_at(less, path),
        has_ended(is_directory_at(less, path)) ==> is_directory_at(more, path) == is_directory_at(
            less,
            path,
        ),
        has_ended(manifest_of(less, path)) ==> manifest_of(more, path) == manifest_of(less, path),
{
    let canonical = QuestionView::Canonical(path);
    let file = QuestionView::IsFile(path);
    let directory = QuestionView::IsDirectory(path);
    let manifest = QuestionView::Manifest(path);
    assert(knows(less, canonical) ==> agree_on(less, more, canonical));
    assert(knows(less, file) ==> agree_on(less, more, file));
    assert(knows(less, directory) ==> agree_on(less, more, directory));
    assert(knows(less, manifest) ==> agree_on(less, more, manifest));
}

proof fn lemma_manifest_inside_stays(less: Disk, more: Disk, directory: Seq<char>)
    requires
        extends(less, more),
        has_ended(manifest_inside(less, directory)),
    ensures
        manifest_inside(more, directory) == manifest_inside(less, directory),
{
    lemma_answers_stay(less, more, path_join(directory, "Simplex.toml"@));
    lemma_answers_stay(less, more, path_join(directory, "simplex.toml"@));
}

proof fn lemma_manifest_above_stays(less: Disk, more: Disk, directory: Seq<char>)
    requires
        extends(less, more),
        has_ended(manifest_above(less, directory)),
    ensures
        manifest_above(more, directory) == manifest_above(less, directory),
    decreases directory.len(),
{
    lemma_manifest_inside_stays(less, more, directory);
    if let Ok(None) = manifest_inside(less, directory) {
        if let Some(parent) = path_parent(directory) {
            lemma_parent_is_shorter(directory);
            lemma_manifest_above_stays(less, more, parent);
        }
    }
}

proof fn lemma_existing_ancestor_stays(less: Disk, more: Disk, path: Seq<char>)
    requires
        extends(less, more),
        has_ended(existing_ancestor(less, path)),
    ensures
        existing_ancestor(more, path) == existing_ancestor(less, path),
    decreases path.len(),
{
    lemma_answers_stay(less, more, path);
    if let Err(StopView::Failed(_)) = canonical_of(less, path) {
        if let Some(parent) = path_parent(path) {
            lemma_parent_is_shorter(path);
            lemma_existing_ancestor_stays(less, more, parent);
        }
    }
}

proof fn lemma_project_manifest_stays(
    less: Disk,
    more: Disk,
    document: Seq<char>,
    settings: ProjectSettings,
    workspace_root: Seq<char>,
)
    requires
        extends(less, more),
        has_ended(project_manifest(less, document, settings, workspace_root)),
    ensures
        project_manifest(more, document, settings, workspace_root) == project_manifest(
            less,
            document,
            settings,
            workspace_root,
        ),
{
    let set = crate::chars::trim_of(settings.simplex.manifest_path@);
    if settings.simplex.enabled {
        if set.len() == 0 {
            lemma_answers_stay(less, more, document);
            match is_directory_at(less, document) {
                Ok(true) => lemma_manifest_above_stays(less, more, document),
                Ok(false) => {
                    if let Some(parent) = path_parent(document) {
                        lemma_manifest_above_stays(less, more, parent);
                    }
                },
                Err(_) => {},
            }
        } else {
            let configured = path_join(workspace_root, set);
            lemma_answers_stay(less, more, configured);
            if let Ok(false) = is_file_at(less, configured) {
                lemma_manifest_inside_stays(less, more, configured);
            }
        }
    }
}

proof fn lemma_package_stays(
    less: Disk,
    more: Disk,
    install_root: Seq<char>,
    package_root: Seq<char>,
    name: Seq<char>,
    dependency: DependencyConfig,
)
    requires
        extends(less, more),
        has_ended(dependency_package(less, install_root, package_root, name, dependency)),
    ensures
        dependency_package(more, install_root, package_root, name, dependency)
            == dependency_package(less, install_root, package_root, name, dependency),
{
    assert forall|path: Seq<char>|
        #![trigger canonical_of(less, path)]
        has_ended(canonical_of(less, path)) implies canonical_of(more, path) == canonical_of(
        less,
        path,
    ) by {
        lemma_answers_stay(less, more, path);
    }
    assert(dependency_root(more, install_root, package_root, name, dependency) == dependency_root(
        less,
        install_root,
        package_root,
        name,
        dependency,
    ));
    if let Ok(root) = dependency_root(less, install_root, package_root, name, dependency) {
        lemma_manifest_inside_stays(less, more, root);
        if let Ok(Some(manifest)) = manifest_inside(less, root) {
            lemma_answers_stay(less, more, manifest);
        }
    }
}

proof fn lemma_collected_stays(
    less: Disk,
    more: Disk,
    collected: CollectedView,
    dependencies: Seq<(Seq<char>, DependencyConfig)>,
    i: int,
    package_root: Seq<char>,
    source_root: Seq<char>,
)
    requires
        extends(less, more),
        has_ended(
            collected_from(less, collected, dependencies, i, package_root, source_root),
        ),
    ensures
        collected_from(more, collected, dependencies, i, package_root, source_root)
            == collected_from(less, collected, dependencies, i, package_root, source_root),
    decreases unvisited(less.canonical@, collected.visited), dependencies.len() - i,
{
    if 0 <= i < dependencies.len() {
        let (name, dependency) = dependencies[i];
        lemma_package_stays(
            less,
            more,
            collected.install_root,
            package_root,
            name,
            dependency,
        );
        if let Ok(package) = dependency_package(
            less,
            collected.install_root,
            package_root,
            name,
            dependency,
        ) {
            let found = with_package(collected, source_root, name, package);
            if collected.visited.contains(package.root) {
                lemma_collected_stays(
                    less,
                    more,
                    found,
                    dependencies,
                    i + 1,
                    package_root,
                    source_root,
                );
            } else {
                law_dependencies_are_collected_in_depth(
                    less,
                    collected,
                    dependencies,
                    i,
                    package_root,
                    source_root,
                    package,
                );
                law_dependencies_are_collected_in_depth(
                    more,
                    collected,
                    dependencies,
                    i,
                    package_root,
                    source_root,
                    package,
                );
                let begun = with_visit(found, package.root);
                lemma_collected_stays(
                    less,
                    more,
                    begun,
                    package.config.dependencies@,
                    0,
                    package.root,
                    package.source,
                );
                if let Ok(inner) = collected_from(
                    less,
                    begun,
                    package.config.dependencies@,
                    0,
                    package.root,
                    package.source,
                ) {
                    lemma_collected_stays(
                        less,
                        more,
                        inner,
                        dependencies,
                        i + 1,
                        package_root,
                        source_root,
                    );
                }
            }
        }
    }
}

proof fn lemma_manual_stays(
    less: Disk,
    more: Disk,
    collected: CollectedView,
    root: Seq<char>,
    source_root: Seq<char>,
    dependencies: Seq<(Seq<char>, ManualDependency)>,
)
    requires
        extends(less, more),
        has_ended(with_all_manual(less, collected, root, source_root, dependencies)),
    ensures
        with_all_manual(more, collected, root, source_root, dependencies) == with_all_manual(
            less,
            collected,
            root,
            source_root,
            dependencies,
        ),
    decreases dependencies.len(),
{
    if dependencies.len() > 0 {
        lemma_manual_stays(less, more, collected, root, source_root, dependencies.drop_last());
        let dependency = dependencies.last().1;
        lemma_answers_stay(less, more, path_join(root, dependency.path_text()));
        if let Some(path) = dependency.context_text() {
            lemma_answers_stay(less, more, path_join(root, path));
        }
    }
}

/// A search that came to an end comes to the same end whatever else becomes known of the disk.
pub proof fn law_discovery_is_settled(
    less: Disk,
    more: Disk,
    document: Seq<char>,
    settings: ProjectSettings,
    roots: Seq<Seq<char>>,
)
    requires
        extends(less, more),
        has_ended(discovered(less, document, settings, roots)),
    ensures
        discovered(more, document, settings, roots) == discovered(less, document, settings, roots),
{
    let workspace_root = workspace_root_of(document, roots);
    lemma_project_manifest_stays(less, more, document, settings, workspace_root);
    if let Ok(manifest) = project_manifest(less, document, settings, workspace_root) {
        match manifest {
            Some(path) => {
                lemma_answers_stay(less, more, path_parent(path)->0);
                lemma_answers_stay(less, more, path);
            },
            None => lemma_existing_ancestor_stays(less, more, workspace_root),
        }
        assert(project_root(more, manifest, workspace_root) == project_root(
            less,
            manifest,
            workspace_root,
        ));
        if let Ok((root, config)) = project_root(less, manifest, workspace_root) {
            lemma_answers_stay(less, more, path_join(root, settings.source_directory@));
            match config {
                Some(config) => lemma_answers_stay(
                    less,
                    more,
                    path_join(root, config.src_dir@),
                ),
                None => {
                    let start = match path_parent(document) {
                        Some(parent) => parent,
                        None => root,
                    };
                    if crate::chars::trim_of(settings.source_directory@).len() == 0 {
                        lemma_existing_ancestor_stays(less, more, start);
                    }
                },
            }
            assert(source_root_of(more, document, settings, root, config) == source_root_of(
                less,
                document,
                settings,
                root,
                config,
            ));
            if let Ok(source_root) = source_root_of(less, document, settings, root, config) {
                let begun = nothing_collected(root, source_root);
                let collected = match config {
                    Some(config) => {
                        lemma_collected_stays(
                            less,
                            more,
                            with_visit(begun, root),
                            config.dependencies@,
                            0,
                            root,
                            source_root,
                        );
                        collected_from(
                            less,
                            with_visit(begun, root),
                            config.dependencies@,
                            0,
                            root,
                            source_root,
                        )
                    },
                    None => Ok(begun),
                };
                if let Ok(collected) = collected {
                    lemma_manual_stays(
                        less,
                        more,
                        collected,
                        root,
                        source_root,
                        settings.dependencies@,
                    );
                }
            }
        }
    }
}

proof fn lemma_manifest_above_asks(disk: Disk, directory: Seq<char>)
    ensures
        asks_the_unknown(disk, manifest_above(disk, directory)),
    decreases directory.len(),
{
    if let Some(parent) = path_parent(directory) {
        lemma_parent_is_shorter(directory);
        lemma_manifest_above_asks(disk, parent);
    }
}

proof fn lemma_existing_ancestor_asks(disk: Disk, path: Seq<char>)
    ensures
        asks_the_unknown(disk, existing_ancestor(disk, path)),
    decreases path.len(),
{
    if let Some(parent) = path_parent(path) {
        lemma_parent_is_shorter(path);
        lemma_existing_ancestor_asks(disk, parent);
    }
}

proof fn lemma_collected_asks(
    disk: Disk,
    collected: CollectedView,
    dependencies: Seq<(Seq<char>, DependencyConfig)>,
    i: int,
    package_root: Seq<char>,
    source_root: Seq<char>,
)
    ensures
        asks_the_unknown(
            disk,
            collected_from(disk, collected, dependencies, i, package_root, source_root),
        ),
    decreases unvisited(disk.canonical@, collected.visited), dependencies.len() - i,
{
    if 0 <= i < dependencies.len() {
        let (name, dependency) = dependencies[i];
        if let Ok(package) = dependency_package(
            disk,
            collected.install_root,
            package_root,
            name,
            dependency,
        ) {
            let found = with_package(collected, source_root, name, package);
            if collected.visited.contains(package.root) {
                lemma_collected_asks(disk, found, dependencies, i + 1, package_root, source_root);
            } else {
                law_dependencies_are_collected_in_depth(
                    disk,
                    collected,
                    dependencies,
                    i,
                    package_root,
                    source_root,
                    package,
                );
                let begun = with_visit(found, package.root);
                lemma_collected_asks(
                    disk,
                    begun,
                    package.config.dependencies@,
                    0,
                    package.root,
                    package.source,
                );
                if let Ok(inner) = collected_from(
                    disk,
                    begun,
                    package.config.dependencies@,
                    0,
                    package.root,
                    package.source,
                ) {
                    lemma_collected_asks(
                        disk,
                        inner,
                        dependencies,
                        i + 1,
                        package_root,
                        source_root,
                    );
                }
            }
        }
    }
}

proof fn lemma_manual_asks(
    disk: Disk,
    collected: CollectedView,
    root: Seq<char>,
    source_root: Seq<char>,
    dependencies: Seq<(Seq<char>, ManualDependency)>,
)
    ensures
        asks_the_unknown(
            disk,
            with_all_manual(disk, collected, root, source_root, dependencies),
        ),
    decreases dependencies.len(),
{
    if dependencies.len() > 0 {
        lemma_manual_asks(disk, collected, root, source_root, dependencies.drop_last());
    }
}

/// A search never asks what is known, so that every answer brings it further.
pub proof fn law_discovery_asks_the_unknown(
    disk: Disk,
    document: Seq<char>,
    settings: ProjectSettings,
    roots: Seq<Seq<char>>,
)
    ensures
        asks_the_unknown(disk, discovered(disk, document, settings, roots)),
{
    let workspace_root = workspace_root_of(document, roots);
    lemma_manifest_above_asks(disk, document);
    if let Some(parent) = path_parent(document) {
        lemma_manifest_above_asks(disk, parent);
    }
    assert(asks_the_unknown(
        disk,
        project_manifest(disk, document, settings, workspace_root),
    ));
    if let Ok(manifest) = project_manifest(disk, document, settings, workspace_root) {
        lemma_existing_ancestor_asks(disk, workspace_root);
        if let Ok((root, config)) = project_root(disk, manifest, workspace_root) {
            let start = match path_parent(document) {
                Some(parent) => parent,
                None => root,
            };
            lemma_existing_ancestor_asks(disk, start);
            if let Ok(source_root) = source_root_of(disk, document, settings, root, config) {
                let begun = nothing_collected(root, source_root);
                let collected = match config {
                    Some(config) => {
                        lemma_collected_asks(
                            disk,
                            with_visit(begun, root),
                            config.dependencies@,
                            0,
                            root,
                            source_root,
                        );
                        collected_from(
                            disk,
                            with_visit(begun, root),
                            config.dependencies@,
                            0,
                            root,
                            source_root,
                        )
                    },
                    None => Ok(begun),
                };
                if let Ok(collected) = collected {
                    lemma_manual_asks(
                        disk,
                        collected,
                        root,
                        source_root,
                        settings.dependencies@,
                    );
                }
            }
        }
    }
}

/// Whether the lists of a collection are in order.
pub open spec fn in_order(collected: CollectedView) -> bool {
    mappings_ascend(collected.mappings) && lengths_descend(collected.package_roots)
}

/// Whether some roots hold the target of every mapping, none twice.
pub open spec fn roots_hold_targets(roots: Seq<Seq<char>>, mappings: Seq<MappingView>) -> bool {
    &&& roots.no_duplicates()
    &&& forall|mapping: MappingView| #[trigger]
        mappings.contains(mapping) ==> roots.contains(mapping.target)
}

/// Whether a collection holds the roots of another, and the target of every mapping among them.
spec fn holds_roots(before: CollectedView, after: CollectedView) -> bool {
    &&& roots_hold_targets(after.package_roots, after.mappings)
    &&& forall|path: Seq<char>| #[trigger]
        before.package_roots.contains(path) ==> after.package_roots.contains(path)
}

/// A mapping that is collected with its target leaves the target of every mapping among the roots.
proof fn lemma_targets_are_held(collected: CollectedView, mapping: MappingView)
    requires
        mappings_ascend(collected.mappings),
        roots_hold_targets(collected.package_roots, collected.mappings),
    ensures
        roots_hold_targets(
            with_root(collected.package_roots, mapping.target),
            with_mapping(collected.mappings, mapping),
        ),
        forall|path: Seq<char>| #[trigger]
            collected.package_roots.contains(path) ==> with_root(
                collected.package_roots,
                mapping.target,
            ).contains(path),
{
    let roots = with_root(collected.package_roots, mapping.target);
    let mappings = with_mapping(collected.mappings, mapping);
    law_root_is_kept(collected.package_roots, mapping.target, mapping.target);
    assert forall|path: Seq<char>| #[trigger]
        collected.package_roots.contains(path) implies roots.contains(path) by {
        law_root_is_kept(collected.package_roots, mapping.target, path);
    }
    assert forall|other: MappingView| #[trigger] mappings.contains(other) implies roots.contains(
        other.target,
    ) by {
        law_mapping_overrides(collected.mappings, mapping, other);
    }
}

proof fn lemma_collected_in_order(
    disk: Disk,
    collected: CollectedView,
    dependencies: Seq<(Seq<char>, DependencyConfig)>,
    i: int,
    package_root: Seq<char>,
    source_root: Seq<char>,
)
    requires
        in_order(collected),
        roots_hold_targets(collected.package_roots, collected.mappings),
    ensures
        collected_from(disk, collected, dependencies, i, package_root, source_root) matches Ok(
            result,
        ) ==> in_order(result) && holds_roots(collected, result),
    decreases unvisited(disk.canonical@, collected.visited), dependencies.len() - i,
{
    if 0 <= i < dependencies.len() {
        let (name, dependency) = dependencies[i];
        if let Ok(package) = dependency_package(
            disk,
            collected.install_root,
            package_root,
            name,
            dependency,
        ) {
            let found = with_package(collected, source_root, name, package);
            let mapping = MappingView {
                context: source_root,
                alias: name,
                target: package.source,
            };
            law_mapping_overrides(collected.mappings, mapping, mapping);
            lemma_lengths_descend(collected.package_roots, package.source);
            lemma_targets_are_held(collected, mapping);
            if collected.visited.contains(package.root) {
                lemma_collected_in_order(
                    disk,
                    found,
                    dependencies,
                    i + 1,
                    package_root,
                    source_root,
                );
            } else {
                law_dependencies_are_collected_in_depth(
                    disk,
                    collected,
                    dependencies,
                    i,
                    package_root,
                    source_root,
                    package,
                );
                let begun = with_visit(found, package.root);
                lemma_collected_in_order(
                    disk,
                    begun,
                    package.config.dependencies@,
                    0,
                    package.root,
                    package.source,
                );
                if let Ok(inner) = collected_from(
                    disk,
                    begun,
                    package.config.dependencies@,
                    0,
                    package.root,
                    package.source,
                ) {
                    lemma_collected_in_order(
                        disk,
                        inner,
                        dependencies,
                        i + 1,
                        package_root,
                        source_root,
                    );
                }
            }
        }
    }
}

proof fn lemma_manual_in_order(
    disk: Disk,
    collected: CollectedView,
    root: Seq<char>,
    source_root: Seq<char>,
    dependencies: Seq<(Seq<char>, ManualDependency)>,
)
    requires
        in_order(collected),
        roots_hold_targets(collected.package_roots, collected.mappings),
    ensures
        with_all_manual(disk, collected, root, source_root, dependencies) matches Ok(result)
            ==> in_order(result) && holds_roots(collected, result),
    decreases dependencies.len(),
{
    if dependencies.len() > 0 {
        lemma_manual_in_order(disk, collected, root, source_root, dependencies.drop_last());
        if let Ok(before) = with_all_manual(
            disk,
            collected,
            root,
            source_root,
            dependencies.drop_last(),
        ) {
            lemma_manual_step_in_order(
                disk,
                before,
                root,
                source_root,
                dependencies.last().0,
                dependencies.last().1,
            );
        }
    }
}

proof fn lemma_manual_step_in_order(
    disk: Disk,
    collected: CollectedView,
    root: Seq<char>,
    source_root: Seq<char>,
    alias: Seq<char>,
    dependency: ManualDependency,
)
    requires
        in_order(collected),
        roots_hold_targets(collected.package_roots, collected.mappings),
    ensures
        with_manual(disk, collected, root, source_root, alias, dependency) matches Ok(result)
            ==> in_order(result) && holds_roots(collected, result),
{
    if let Some(mapping) = manual_mapping(disk, root, source_root, alias, dependency) {
        law_mapping_overrides(collected.mappings, mapping, mapping);
        lemma_lengths_descend(collected.package_roots, mapping.target);
        lemma_targets_are_held(collected, mapping);
    }
}

/// The mapping that the user set, where its directories exist.
pub open spec fn manual_mapping(
    disk: Disk,
    root: Seq<char>,
    source_root: Seq<char>,
    alias: Seq<char>,
    dependency: ManualDependency,
) -> Option<MappingView> {
    let context = match dependency.context_text() {
        Some(path) => existing(disk, root, path),
        None => Ok(source_root),
    };
    match (existing(disk, root, dependency.path_text()), context) {
        (Ok(target), Ok(context)) => Some(MappingView { context, alias, target }),
        _ => None,
    }
}

/// A collection begins in order, with the root of the project's own sources.
proof fn lemma_begun_in_order(root: Seq<char>, source_root: Seq<char>)
    ensures
        in_order(nothing_collected(root, source_root)),
        roots_hold_targets(
            nothing_collected(root, source_root).package_roots,
            nothing_collected(root, source_root).mappings,
        ),
        nothing_collected(root, source_root).package_roots.contains(source_root),
{
    lemma_lengths_descend(Seq::<Seq<char>>::empty(), source_root);
    law_root_is_kept(Seq::<Seq<char>>::empty(), source_root, source_root);
}

/// What is collected of a project is in order, and among its roots are that of the project's own
/// sources and the target of every mapping, none twice.
pub proof fn lemma_all_collected_in_order(
    disk: Disk,
    settings: ProjectSettings,
    root: Seq<char>,
    source_root: Seq<char>,
    config: Option<SimplexConfig>,
)
    ensures
        all_collected(disk, settings, root, source_root, config) matches Ok(collected) ==> {
            &&& in_order(collected)
            &&& roots_hold_targets(collected.package_roots, collected.mappings)
            &&& collected.package_roots.contains(source_root)
        },
{
    let begun = nothing_collected(root, source_root);
    lemma_begun_in_order(root, source_root);
    match config {
        Some(config) => {
            let visiting = with_visit(begun, root);
            assert(in_order(visiting));
            lemma_collected_in_order(
                disk,
                visiting,
                config.dependencies@,
                0,
                root,
                source_root,
            );
            if let Ok(collected) = collected_from(
                disk,
                visiting,
                config.dependencies@,
                0,
                root,
                source_root,
            ) {
                lemma_manual_in_order(
                    disk,
                    collected,
                    root,
                    source_root,
                    settings.dependencies@,
                );
            }
        },
        None => lemma_manual_in_order(disk, begun, root, source_root, settings.dependencies@),
    }
}

/// The mappings of a project that was found are in order, the most specific first.
pub proof fn law_discovered_project_is_in_order(
    disk: Disk,
    document: Seq<char>,
    settings: ProjectSettings,
    roots: Seq<Seq<char>>,
)
    ensures
        discovered(disk, document, settings, roots) matches Ok(context) ==> context.well_formed(),
{
    let workspace_root = workspace_root_of(document, roots);
    if let Ok(manifest) = project_manifest(disk, document, settings, workspace_root) {
        if let Ok((root, config)) = project_root(disk, manifest, workspace_root) {
            if let Ok(source_root) = source_root_of(disk, document, settings, root, config) {
                lemma_all_collected_in_order(disk, settings, root, source_root, config);
            }
        }
    }
}

/// The package roots of a project that was found hold the root of its own sources and the target
/// of every mapping, none twice.
pub proof fn law_discovered_roots_hold_all_sources(
    disk: Disk,
    document: Seq<char>,
    settings: ProjectSettings,
    roots: Seq<Seq<char>>,
)
    ensures
        discovered(disk, document, settings, roots) matches Ok(context) ==> {
            &&& context.package_roots.contains(context.source_root)
            &&& roots_hold_targets(context.package_roots, context.dependencies)
        },
{
    let workspace_root = workspace_root_of(document, roots);
    if let Ok(manifest) = project_manifest(disk, document, settings, workspace_root) {
        if let Ok((root, config)) = project_root(disk, manifest, workspace_root) {
            if let Ok(source_root) = source_root_of(disk, document, settings, root, config) {
                lemma_all_collected_in_order(disk, settings, root, source_root, config);
            }
        }
    }
}

/// The aliases of mappings that the user set are different, so that none overrides another.
proof fn lemma_manual_kept(
    disk: Disk,
    collected: CollectedView,
    root: Seq<char>,
    source_root: Seq<char>,
    dependencies: Seq<(Seq<char>, ManualDependency)>,
    i: int,
    other: MappingView,
)
    requires
        in_order(collected),
        roots_hold_targets(collected.package_roots, collected.mappings),
        keys_ascend(dependencies),
        0 <= i < dependencies.len(),
        with_all_manual(disk, collected, root, source_root, dependencies) is Ok,
    ensures
        match (
            manual_mapping(disk, root, source_root, dependencies[i].0, dependencies[i].1),
            with_all_manual(disk, collected, root, source_root, dependencies),
        ) {
            (Some(mapping), Ok(result)) => result.mappings.contains(mapping) && (same_key(
                other,
                mapping,
            ) && result.mappings.contains(other) ==> other == mapping),
            _ => false,
        },
    decreases dependencies.len(),
{
    let rest = dependencies.drop_last();
    let (alias, dependency) = dependencies.last();
    let before = with_all_manual(disk, collected, root, source_root, rest)->Ok_0;
    let last = manual_mapping(disk, root, source_root, alias, dependency)->0;
    lemma_manual_in_order(disk, collected, root, source_root, rest);
    if i == rest.len() {
        law_mapping_overrides(before.mappings, last, other);
    } else {
        assert forall|a: int, b: int| 0 <= a < b < rest.len() implies precedes(
            #[trigger] rest[a].0,
            #[trigger] rest[b].0,
        ) by {
            assert(rest[a] == dependencies[a]);
            assert(rest[b] == dependencies[b]);
        }
        lemma_manual_kept(disk, collected, root, source_root, rest, i, other);
        let mapping = manual_mapping(
            disk,
            root,
            source_root,
            dependencies[i].0,
            dependencies[i].1,
        )->0;
        assert(rest[i] == dependencies[i]);
        assert(precedes(dependencies[i].0, dependencies[rest.len() as int].0));
        lemma_precedes_total(mapping.alias, last.alias);
        law_mapping_overrides(before.mappings, last, mapping);
        law_mapping_overrides(before.mappings, last, other);
    }
}

/// A mapping that the user set counts, and no mapping of a manifest takes its place.
pub proof fn law_manual_mapping_overrides_manifest(
    disk: Disk,
    settings: ProjectSettings,
    root: Seq<char>,
    source_root: Seq<char>,
    config: Option<SimplexConfig>,
    i: int,
    other: MappingView,
)
    requires
        settings.dependencies.ordered(),
        0 <= i < settings.dependencies@.len(),
        all_collected(disk, settings, root, source_root, config) is Ok,
    ensures
        match (
            manual_mapping(
                disk,
                root,
                source_root,
                settings.dependencies@[i].0,
                settings.dependencies@[i].1,
            ),
            all_collected(disk, settings, root, source_root, config),
        ) {
            (Some(mapping), Ok(collected)) => collected.mappings.contains(mapping) && (same_key(
                other,
                mapping,
            ) && collected.mappings.contains(other) ==> other == mapping),
            _ => false,
        },
{
    let begun = nothing_collected(root, source_root);
    lemma_begun_in_order(root, source_root);
    let collected = match config {
        Some(config) => {
            let visiting = with_visit(begun, root);
            assert(in_order(visiting));
            lemma_collected_in_order(
                disk,
                visiting,
                config.dependencies@,
                0,
                root,
                source_root,
            );
            collected_from(disk, visiting, config.dependencies@, 0, root, source_root)->Ok_0
        },
        None => begun,
    };
    lemma_manual_kept(
        disk,
        collected,
        root,
        source_root,
        settings.dependencies@,
        i,
        other,
    );
}

/// The directory that the paths of a project that was found begin at.
pub open spec fn discovered_root(
    disk: Disk,
    document: Seq<char>,
    settings: ProjectSettings,
    roots: Seq<Seq<char>>,
) -> Seq<char> {
    let workspace_root = workspace_root_of(document, roots);
    let manifest = project_manifest(disk, document, settings, workspace_root)->Ok_0;
    project_root(disk, manifest, workspace_root)->Ok_0.0
}

/// Whether every mapping that the user set is there, and no other with its key.
pub open spec fn manual_mappings_hold(
    disk: Disk,
    settings: ProjectSettings,
    root: Seq<char>,
    source_root: Seq<char>,
    mappings: Seq<MappingView>,
) -> bool {
    forall|i: int|
        0 <= i < settings.dependencies@.len() ==> match manual_mapping(
            disk,
            root,
            source_root,
            (#[trigger] settings.dependencies@[i]).0,
            settings.dependencies@[i].1,
        ) {
            Some(mapping) => {
                &&& mappings.contains(mapping)
                &&& forall|other: MappingView| #[trigger]
                    mappings.contains(other) && same_key(other, mapping) ==> other == mapping
            },
            None => false,
        }
}

/// In a project that was found every mapping that the user set counts, in the place of one that a
/// manifest gives.
pub proof fn law_discovered_project_has_manual_mappings(
    disk: Disk,
    document: Seq<char>,
    settings: ProjectSettings,
    roots: Seq<Seq<char>>,
)
    requires
        settings.dependencies.ordered(),
    ensures
        discovered(disk, document, settings, roots) matches Ok(context) ==> manual_mappings_hold(
            disk,
            settings,
            discovered_root(disk, document, settings, roots),
            context.source_root,
            context.dependencies,
        ),
{
    let workspace_root = workspace_root_of(document, roots);
    if let Ok(context) = discovered(disk, document, settings, roots) {
        let manifest = project_manifest(disk, document, settings, workspace_root)->Ok_0;
        let (root, config) = project_root(disk, manifest, workspace_root)->Ok_0;
        assert forall|i: int| 0 <= i < settings.dependencies@.len() implies match manual_mapping(
            disk,
            root,
            context.source_root,
            (#[trigger] settings.dependencies@[i]).0,
            settings.dependencies@[i].1,
        ) {
            Some(mapping) => {
                &&& context.dependencies.contains(mapping)
                &&& forall|other: MappingView| #[trigger]
                    context.dependencies.contains(other) && same_key(other, mapping) ==> other
                        == mapping
            },
            None => false,
        } by {
            let mapping = manual_mapping(
                disk,
                root,
                context.source_root,
                settings.dependencies@[i].0,
                settings.dependencies@[i].1,
            )->0;
            law_manual_mapping_overrides_manifest(
                disk,
                settings,
                root,
                context.source_root,
                config,
                i,
                mapping,
            );
            assert forall|other: MappingView| #[trigger]
                context.dependencies.contains(other) && same_key(other, mapping) implies other
                == mapping by {
                law_manual_mapping_overrides_manifest(
                    disk,
                    settings,
                    root,
                    context.source_root,
                    config,
                    i,
                    other,
                );
            }
        }
    }
}

} // verus!
