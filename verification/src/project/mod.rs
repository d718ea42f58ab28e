//! The project that a document belongs to, and what its imports mean.

use vstd::prelude::*;

use crate::chars::{byte_len, to_chars, to_text, trim, trim_of, utf8_len};
use crate::config::{ManualDependency, ProjectSettings};
use crate::order::texts;
use crate::paths::{
    join, lemma_parent_is_shorter, parent, path_join, path_parent, path_starts_with, starts_with,
};
use crate::project::collector::{
    collected_from, manifest_in, manifest_inside, with_visit, CollectedView, ProjectCollector,
};
use crate::project::disk::{
    canonical_of, is_directory_at, is_file_at, manifest_of, opt_text_found, text_found, Disk,
    SimplexConfig, Stop, StopView,
};
use crate::project::error::{ErrorView, ProjectError};
use crate::project::mappings::{
    insert_mapping, insert_root, mapping_views, with_mapping, with_root, DependencyMapping,
    MappingView,
};

pub mod collector;
pub mod dependency_laws;
pub mod discovery_laws;
pub mod disk;
pub mod error;
pub mod git;
pub mod laws;
pub mod mappings;
pub mod visibility;

verus! {

/// A project as its imports see it.
#[derive(Debug)]
pub struct ProjectContext {
    pub source_root: String,
    /// The mappings with the longest contexts first.
    pub dependencies: Vec<DependencyMapping>,
    /// The directories of sources, the longest first.
    pub package_roots: Vec<String>,
}

/// What a [`ProjectContext`] says.
#[verifier::ext_equal]
pub struct ContextView {
    pub source_root: Seq<char>,
    pub dependencies: Seq<MappingView>,
    pub package_roots: Seq<Seq<char>>,
}

impl View for ProjectContext {
    type V = ContextView;

    open spec fn view(&self) -> ContextView {
        ContextView {
            source_root: self.source_root@,
            dependencies: mapping_views(self.dependencies@),
            package_roots: texts(self.package_roots@),
        }
    }
}

/// The longest of the workspace folders that a path lies in, and of several as long the last.
pub open spec fn workspace_of(path: Seq<char>, roots: Seq<Seq<char>>) -> Option<Seq<char>>
    decreases roots.len(),
{
    if roots.len() == 0 {
        None
    } else {
        let before = workspace_of(path, roots.drop_last());
        let last = roots.last();
        if path_starts_with(path, last) {
            match before {
                Some(other) => if utf8_len(last) >= utf8_len(other) {
                    Some(last)
                } else {
                    before
                },
                None => Some(last),
            }
        } else {
            before
        }
    }
}

/// The directory that a document is looked at from: its workspace folder, or else the directory it
/// lies in.
pub open spec fn workspace_root_of(document: Seq<char>, roots: Seq<Seq<char>>) -> Seq<char> {
    match workspace_of(document, roots) {
        Some(root) => root,
        None => match path_parent(document) {
            Some(parent) => parent,
            None => "."@,
        },
    }
}

/// A path as a manifest, or the manifest in it.
pub open spec fn manifest_at_path(disk: Disk, path: Seq<char>) -> Result<
    Option<Seq<char>>,
    StopView,
> {
    match is_file_at(disk, path) {
        Err(stop) => Err(stop),
        Ok(true) => Ok(Some(path)),
        Ok(false) => manifest_inside(disk, path),
    }
}

/// The manifest in a directory, or else in the nearest one above it.
pub open spec fn manifest_above(disk: Disk, directory: Seq<char>) -> Result<
    Option<Seq<char>>,
    StopView,
>
    decreases directory.len(),
{
    match manifest_inside(disk, directory) {
        Err(stop) => Err(stop),
        Ok(Some(manifest)) => Ok(Some(manifest)),
        Ok(None) => match path_parent(directory) {
            Some(parent) => {
                proof {
                    lemma_parent_is_shorter(directory);
                }
                manifest_above(disk, parent)
            },
            None => Ok(None),
        },
    }
}

/// The nearest manifest of a path.
pub open spec fn nearest_manifest(disk: Disk, path: Seq<char>) -> Result<
    Option<Seq<char>>,
    StopView,
> {
    match is_directory_at(disk, path) {
        Err(stop) => Err(stop),
        Ok(true) => manifest_above(disk, path),
        Ok(false) => match path_parent(path) {
            Some(parent) => manifest_above(disk, parent),
            None => Ok(None),
        },
    }
}

/// The canonical path of the first of a path and those above it that has one.
pub open spec fn existing_ancestor(disk: Disk, path: Seq<char>) -> Result<Seq<char>, StopView>
    decreases path.len(),
{
    match canonical_of(disk, path) {
        Err(StopView::Failed(error)) => match path_parent(path) {
            Some(parent) => {
                proof {
                    lemma_parent_is_shorter(path);
                }
                existing_ancestor(disk, parent)
            },
            None => Err(StopView::Failed(error)),
        },
        other => other,
    }
}

/// The canonical path of a path below a directory. One that is absolute stands for itself.
pub open spec fn existing(disk: Disk, base: Seq<char>, path: Seq<char>) -> Result<
    Seq<char>,
    StopView,
> {
    canonical_of(disk, path_join(base, path))
}

/// The manifest of a document's project, if it has one.
pub open spec fn project_manifest(
    disk: Disk,
    document: Seq<char>,
    settings: ProjectSettings,
    workspace_root: Seq<char>,
) -> Result<Option<Seq<char>>, StopView> {
    let set = trim_of(settings.simplex.manifest_path@);
    if !settings.simplex.enabled {
        Ok(None)
    } else if set.len() == 0 {
        nearest_manifest(disk, document)
    } else {
        let configured = path_join(workspace_root, set);
        match manifest_at_path(disk, configured) {
            Ok(None) => Err(
                StopView::Failed(ErrorView::MissingConfiguredManifest(configured)),
            ),
            other => other,
        }
    }
}

/// The directory of a project and what its manifest says.
pub open spec fn project_root(
    disk: Disk,
    manifest: Option<Seq<char>>,
    workspace_root: Seq<char>,
) -> Result<(Seq<char>, Option<SimplexConfig>), StopView> {
    match manifest {
        Some(manifest) => match canonical_of(disk, path_parent(manifest)->0) {
            Err(stop) => Err(stop),
            Ok(root) => match manifest_of(disk, manifest) {
                Err(stop) => Err(stop),
                Ok(config) => Ok((root, Some(config))),
            },
        },
        None => match existing_ancestor(disk, workspace_root) {
            Err(stop) => Err(stop),
            Ok(root) => Ok((root, None)),
        },
    }
}

/// The directory of a project's own sources: the one that is set, or the one that the manifest
/// names, or else the one that the document lies in.
pub open spec fn source_root_of(
    disk: Disk,
    document: Seq<char>,
    settings: ProjectSettings,
    root: Seq<char>,
    config: Option<SimplexConfig>,
) -> Result<Seq<char>, StopView> {
    if trim_of(settings.source_directory@).len() > 0 {
        existing(disk, root, settings.source_directory@)
    } else {
        match config {
            Some(config) => canonical_of(disk, path_join(root, config.src_dir@)),
            None => existing_ancestor(
                disk,
                match path_parent(document) {
                    Some(parent) => parent,
                    None => root,
                },
            ),
        }
    }
}

/// What is collected with a mapping that the user set.
pub open spec fn with_manual(
    disk: Disk,
    collected: CollectedView,
    root: Seq<char>,
    source_root: Seq<char>,
    alias: Seq<char>,
    dependency: ManualDependency,
) -> Result<CollectedView, StopView> {
    match existing(disk, root, dependency.path_text()) {
        Err(stop) => Err(stop),
        Ok(target) => {
            let context = match dependency.context_text() {
                Some(path) => existing(disk, root, path),
                None => Ok(source_root),
            };
            match context {
                Err(stop) => Err(stop),
                Ok(context) => Ok(
                    CollectedView {
                        mappings: with_mapping(
                            collected.mappings,
                            MappingView { context, alias, target },
                        ),
                        package_roots: with_root(collected.package_roots, target),
                        ..collected
                    },
                ),
            }
        },
    }
}

/// What is collected with the mappings that the user set, in the order of their aliases.
pub open spec fn with_all_manual(
    disk: Disk,
    collected: CollectedView,
    root: Seq<char>,
    source_root: Seq<char>,
    dependencies: Seq<(Seq<char>, ManualDependency)>,
) -> Result<CollectedView, StopView>
    decreases dependencies.len(),
{
    if dependencies.len() == 0 {
        Ok(collected)
    } else {
        match with_all_manual(disk, collected, root, source_root, dependencies.drop_last()) {
            Err(stop) => Err(stop),
            Ok(before) => with_manual(
                disk,
                before,
                root,
                source_root,
                dependencies.last().0,
                dependencies.last().1,
            ),
        }
    }
}

/// What is collected of a project before its dependencies.
pub open spec fn nothing_collected(root: Seq<char>, source_root: Seq<char>) -> CollectedView {
    CollectedView {
        install_root: root,
        visited: Seq::empty(),
        mappings: Seq::empty(),
        package_roots: with_root(Seq::empty(), source_root),
    }
}

/// What is collected of a project's dependencies and of those that the user set.
pub open spec fn all_collected(
    disk: Disk,
    settings: ProjectSettings,
    root: Seq<char>,
    source_root: Seq<char>,
    config: Option<SimplexConfig>,
) -> Result<CollectedView, StopView> {
    let begun = nothing_collected(root, source_root);
    let collected = match config {
        Some(config) => collected_from(
            disk,
            with_visit(begun, root),
            config.dependencies@,
            0,
            root,
            source_root,
        ),
        None => Ok(begun),
    };
    match collected {
        Err(stop) => Err(stop),
        Ok(collected) => with_all_manual(
            disk,
            collected,
            root,
            source_root,
            settings.dependencies@,
        ),
    }
}

/// The project of a document, as far as the disk is known.
pub open spec fn discovered(
    disk: Disk,
    document: Seq<char>,
    settings: ProjectSettings,
    roots: Seq<Seq<char>>,
) -> Result<ContextView, StopView> {
    let workspace_root = workspace_root_of(document, roots);
    match project_manifest(disk, document, settings, workspace_root) {
        Err(stop) => Err(stop),
        Ok(manifest) => match project_root(disk, manifest, workspace_root) {
            Err(stop) => Err(stop),
            Ok((root, config)) => match source_root_of(disk, document, settings, root, config) {
                Err(stop) => Err(stop),
                Ok(source_root) => match all_collected(disk, settings, root, source_root, config) {
                    Err(stop) => Err(stop),
                    Ok(collected) => Ok(
                        ContextView {
                            source_root,
                            dependencies: collected.mappings,
                            package_roots: collected.package_roots,
                        },
                    ),
                },
            },
        },
    }
}

/// The longest of the workspace folders that a path lies in.
fn containing_workspace(path: &str, roots: &Vec<String>) -> (r: Option<String>)
    ensures
        match r {
            Some(root) => workspace_of(path@, texts(roots@)) == Some(root@),
            None => workspace_of(path@, texts(roots@)) is None,
        },
{
    let ghost shown = texts(roots@);
    let mut best: Option<String> = None;
    let mut i: usize = 0;
    while i < roots.len()
        invariant
            i <= roots@.len(),
            shown == texts(roots@),
            match best {
                Some(root) => workspace_of(path@, shown.take(i as int)) == Some(root@),
                None => workspace_of(path@, shown.take(i as int)) is None,
            },
        decreases roots@.len() - i,
    {
        proof {
            assert(shown.take(i + 1).drop_last() == shown.take(i as int));
            assert(shown.take(i + 1).last() == roots@[i as int]@);
        }
        if starts_with(path, roots[i].as_str()) {
            let longer: bool = match &best {
                Some(other) => byte_len(roots[i].as_str()) >= byte_len(other.as_str()),
                None => true,
            };
            if longer {
                best = Some(roots[i].clone());
            }
        }
        i = i + 1;
    }
    assert(shown.take(i as int) == shown);
    best
}

/// A path as a manifest, or the manifest in it.
fn manifest_at(disk: &Disk, path: &str) -> (r: Result<Option<String>, Stop>)
    ensures
        opt_text_found(r) == manifest_at_path(*disk, path@),
{
    match disk.is_file(path) {
        Err(stop) => Err(stop),
        Ok(true) => Ok(Some(path.to_owned())),
        Ok(false) => manifest_in(disk, path),
    }
}

/// The manifest in a directory, or else in the nearest one above it.
fn find_manifest_above(disk: &Disk, directory: &str) -> (r: Result<Option<String>, Stop>)
    ensures
        opt_text_found(r) == manifest_above(*disk, directory@),
    decreases directory@.len(),
{
    match manifest_in(disk, directory) {
        Err(stop) => return Err(stop),
        Ok(Some(manifest)) => return Ok(Some(manifest)),
        Ok(None) => {},
    }
    match parent(directory) {
        Some(above) => {
            proof {
                lemma_parent_is_shorter(directory@);
            }
            find_manifest_above(disk, above.as_str())
        },
        None => Ok(None),
    }
}

/// The nearest manifest of a path, as far as the disk is known.
pub fn find_manifest(path: &str, disk: &Disk) -> (r: Result<Option<String>, Stop>)
    ensures
        opt_text_found(r) == nearest_manifest(*disk, path@),
{
    match disk.is_directory(path) {
        Err(stop) => Err(stop),
        Ok(true) => find_manifest_above(disk, path),
        Ok(false) => match parent(path) {
            Some(above) => find_manifest_above(disk, above.as_str()),
            None => Ok(None),
        },
    }
}

/// The canonical path of the first of a path and those above it that has one.
fn canonicalize_existing_ancestor(disk: &Disk, path: &str) -> (r: Result<String, Stop>)
    ensures
        text_found(r) == existing_ancestor(*disk, path@),
    decreases path@.len(),
{
    match disk.canonicalize(path) {
        Err(Stop::Failed(error)) => match parent(path) {
            Some(above) => {
                proof {
                    lemma_parent_is_shorter(path@);
                }
                canonicalize_existing_ancestor(disk, above.as_str())
            },
            None => Err(Stop::Failed(error)),
        },
        other => other,
    }
}

/// The canonical path of a path below a directory.
fn resolve_existing(disk: &Disk, base: &str, path: &str) -> (r: Result<String, Stop>)
    ensures
        text_found(r) == existing(*disk, base@, path@),
{
    disk.canonicalize(join(base, path).as_str())
}

/// The manifest of a document's project.
fn find_project_manifest(
    disk: &Disk,
    document: &str,
    settings: &ProjectSettings,
    workspace_root: &str,
) -> (r: Result<Option<String>, Stop>)
    ensures
        opt_text_found(r) == project_manifest(*disk, document@, *settings, workspace_root@),
{
    if !settings.simplex.enabled {
        return Ok(None);
    }
    let chars: Vec<char> = to_chars(settings.simplex.manifest_path.as_str());
    let set: &[char] = trim(chars.as_slice());
    if set.len() == 0 {
        return find_manifest(document, disk);
    }
    let configured: String = join(workspace_root, to_text(set).as_str());
    match manifest_at(disk, configured.as_str()) {
        Ok(None) => Err(Stop::Failed(ProjectError::MissingConfiguredManifest(configured))),
        other => other,
    }
}

/// A manifest that was found lies in a directory.
proof fn lemma_manifest_has_parent(
    disk: Disk,
    document: Seq<char>,
    settings: ProjectSettings,
    workspace_root: Seq<char>,
)
    ensures
        project_manifest(disk, document, settings, workspace_root) matches Ok(Some(manifest))
            ==> path_parent(manifest) is Some,
{
    if settings.simplex.enabled && trim_of(settings.simplex.manifest_path@).len() == 0 {
        lemma_manifest_above_has_parent(disk, document);
        if let Some(parent) = path_parent(document) {
            lemma_manifest_above_has_parent(disk, parent);
        }
    }
}

proof fn lemma_manifest_above_has_parent(disk: Disk, directory: Seq<char>)
    ensures
        manifest_above(disk, directory) matches Ok(Some(manifest)) ==> path_parent(
            manifest,
        ) is Some,
    decreases directory.len(),
{
    if let Some(parent) = path_parent(directory) {
        lemma_parent_is_shorter(directory);
        lemma_manifest_above_has_parent(disk, parent);
    }
}

/// Adds a mapping that the user set. Where it cannot be resolved, nothing is added.
fn add_manual_dependency(
    collector: &mut ProjectCollector,
    disk: &Disk,
    root: &str,
    source_root: &str,
    alias: &str,
    dependency: &ManualDependency,
) -> (r: Result<(), Stop>)
    ensures
        match r {
            Ok(_) => with_manual(
                *disk,
                old(collector)@,
                root@,
                source_root@,
                alias@,
                *dependency,
            ) == Ok::<CollectedView, StopView>(final(collector)@),
            Err(stop) => with_manual(
                *disk,
                old(collector)@,
                root@,
                source_root@,
                alias@,
                *dependency,
            ) == Err::<CollectedView, StopView>(stop@) && final(collector)@ == old(collector)@,
        },
{
    let target: String = match resolve_existing(disk, root, dependency.path()) {
        Ok(target) => target,
        Err(stop) => return Err(stop),
    };
    let context: String = match dependency.context() {
        Some(path) => match resolve_existing(disk, root, path) {
            Ok(context) => context,
            Err(stop) => return Err(stop),
        },
        None => source_root.to_owned(),
    };
    let ghost before = collector@;
    let ghost mapping = MappingView { context: context@, alias: alias@, target: target@ };
    insert_mapping(
        &mut collector.mappings,
        DependencyMapping { context, alias: alias.to_owned(), target: target.clone() },
    );
    insert_root(&mut collector.package_roots, target);
    assert(collector@ =~= (CollectedView {
        mappings: with_mapping(before.mappings, mapping),
        package_roots: with_root(before.package_roots, mapping.target),
        ..before
    }));
    Ok(())
}

impl ProjectContext {
    /// The project of a document. It stops where something has to be asked of the disk first, and
    /// where the project cannot be read.
    pub fn discover(
        document_path: &str,
        settings: &ProjectSettings,
        workspace_roots: &Vec<String>,
        disk: &Disk,
    ) -> (r: Result<ProjectContext, Stop>)
        ensures
            match r {
                Ok(context) => {
                    &&& discovered(*disk, document_path@, *settings, texts(workspace_roots@))
                        == Ok::<ContextView, StopView>(context@)
                    &&& context@.well_formed()
                    &&& context@.package_roots.contains(context@.source_root)
                    &&& laws::roots_hold_targets(context@.package_roots, context@.dependencies)
                    &&& laws::manual_mappings_hold(
                        *disk,
                        *settings,
                        laws::discovered_root(
                            *disk,
                            document_path@,
                            *settings,
                            texts(workspace_roots@),
                        ),
                        context@.source_root,
                        context@.dependencies,
                    )
                },
                Err(stop) => discovered(
                    *disk,
                    document_path@,
                    *settings,
                    texts(workspace_roots@),
                ) == Err::<ContextView, StopView>(stop@),
            },
    {
        let workspace_root: String = match containing_workspace(document_path, workspace_roots) {
            Some(root) => root,
            None => match parent(document_path) {
                Some(above) => above,
                None => ".".to_owned(),
            },
        };
        let manifest: Option<String> = match find_project_manifest(
            disk,
            document_path,
            settings,
            workspace_root.as_str(),
        ) {
            Ok(manifest) => manifest,
            Err(stop) => return Err(stop),
        };
        proof {
            use_type_invariant(&settings.dependencies);
            lemma_manifest_has_parent(*disk, document_path@, *settings, workspace_root@);
            laws::law_discovered_roots_hold_all_sources(
                *disk,
                document_path@,
                *settings,
                texts(workspace_roots@),
            );
            laws::law_discovered_project_has_manual_mappings(
                *disk,
                document_path@,
                *settings,
                texts(workspace_roots@),
            );
            laws::law_discovered_project_is_in_order(
                *disk,
                document_path@,
                *settings,
                texts(workspace_roots@),
            );
        }
        let (root, config): (String, Option<&SimplexConfig>) = match &manifest {
            Some(manifest) => {
                let above: String = match parent(manifest.as_str()) {
                    Some(above) => above,
                    None => String::new(),
                };
                let root: String = match disk.canonicalize(above.as_str()) {
                    Ok(root) => root,
                    Err(stop) => return Err(stop),
                };
                match disk.load_manifest(manifest.as_str()) {
                    Ok(config) => (root, Some(config)),
                    Err(stop) => return Err(stop),
                }
            },
            None => match canonicalize_existing_ancestor(disk, workspace_root.as_str()) {
                Ok(root) => (root, None),
                Err(stop) => return Err(stop),
            },
        };
        let source_root: String = match Self::find_source_root(
            disk,
            document_path,
            settings,
            root.as_str(),
            config,
        ) {
            Ok(source_root) => source_root,
            Err(stop) => return Err(stop),
        };
        let collector: ProjectCollector = match Self::collect_all(
            disk,
            settings,
            root.as_str(),
            source_root.as_str(),
            config,
        ) {
            Ok(collector) => collector,
            Err(stop) => return Err(stop),
        };
        Ok(
            ProjectContext {
                source_root,
                dependencies: collector.mappings,
                package_roots: collector.package_roots,
            },
        )
    }

    /// The directory of a project's own sources.
    fn find_source_root(
        disk: &Disk,
        document: &str,
        settings: &ProjectSettings,
        root: &str,
        config: Option<&SimplexConfig>,
    ) -> (r: Result<String, Stop>)
        ensures
            text_found(r) == source_root_of(
                *disk,
                document@,
                *settings,
                root@,
                (match config {
                    Some(config) => Some(*config),
                    None => None,
                }),
            ),
    {
        if trim(to_chars(settings.source_directory.as_str()).as_slice()).len() > 0 {
            return resolve_existing(disk, root, settings.source_directory.as_str());
        }
        match config {
            Some(config) => disk.canonicalize(join(root, config.src_dir.as_str()).as_str()),
            None => match parent(document) {
                Some(above) => canonicalize_existing_ancestor(disk, above.as_str()),
                None => canonicalize_existing_ancestor(disk, root),
            },
        }
    }

    /// Collects a project's dependencies and those that the user set.
    fn collect_all(
        disk: &Disk,
        settings: &ProjectSettings,
        root: &str,
        source_root: &str,
        config: Option<&SimplexConfig>,
    ) -> (r: Result<ProjectCollector, Stop>)
        ensures
            match r {
                Ok(collector) => all_collected(
                    *disk,
                    *settings,
                    root@,
                    source_root@,
                    (match config {
                        Some(config) => Some(*config),
                        None => None,
                    }),
                ) == Ok::<CollectedView, StopView>(collector@),
                Err(stop) => all_collected(
                    *disk,
                    *settings,
                    root@,
                    source_root@,
                    (match config {
                        Some(config) => Some(*config),
                        None => None,
                    }),
                ) == Err::<CollectedView, StopView>(stop@),
            },
    {
        let mut collector: ProjectCollector = ProjectCollector::new(root.to_owned());
        insert_root(&mut collector.package_roots, source_root.to_owned());
        assert(collector@ =~= nothing_collected(root@, source_root@));
        if let Some(config) = config {
            match collector.collect(disk, config, root, source_root) {
                Ok(_) => {},
                Err(stop) => return Err(stop),
            }
        }
        let ghost collected = collector@;
        let ghost manual = settings.dependencies@;
        let ghost wanted = all_collected(
            *disk,
            *settings,
            root@,
            source_root@,
            match config {
                Some(config) => Some(*config),
                None => None,
            },
        );
        let mut i: usize = 0;
        while i < settings.dependencies.len()
            invariant
                i <= manual.len(),
                manual == settings.dependencies@,
                wanted == with_all_manual(*disk, collected, root@, source_root@, manual),
                wanted == all_collected(
                    *disk,
                    *settings,
                    root@,
                    source_root@,
                    (match config {
                        Some(config) => Some(*config),
                        None => None,
                    }),
                ),
                with_all_manual(
                    *disk,
                    collected,
                    root@,
                    source_root@,
                    manual.take(i as int),
                ) == Ok::<CollectedView, StopView>(collector@),
            decreases manual.len() - i,
        {
            proof {
                assert(manual.take(i + 1).drop_last() == manual.take(i as int));
                assert(manual.take(i + 1).last() == manual[i as int]);
            }
            match add_manual_dependency(
                &mut collector,
                disk,
                root,
                source_root,
                settings.dependencies.key_at(i).as_str(),
                settings.dependencies.value_at(i),
            ) {
                Ok(_) => {},
                Err(stop) => {
                    proof {
                        lemma_manual_stops(
                            *disk,
                            collected,
                            root@,
                            source_root@,
                            manual,
                            i + 1,
                        );
                    }
                    return Err(stop);
                },
            }
            i = i + 1;
        }
        assert(manual.take(i as int) == manual);
        Ok(collector)
    }
}

/// A search that stops at one of the mappings that the user set stops there whatever follows.
proof fn lemma_manual_stops(
    disk: Disk,
    collected: CollectedView,
    root: Seq<char>,
    source_root: Seq<char>,
    dependencies: Seq<(Seq<char>, ManualDependency)>,
    n: int,
)
    requires
        0 <= n <= dependencies.len(),
        with_all_manual(disk, collected, root, source_root, dependencies.take(n)) is Err,
    ensures
        with_all_manual(disk, collected, root, source_root, dependencies) == with_all_manual(
            disk,
            collected,
            root,
            source_root,
            dependencies.take(n),
        ),
    decreases dependencies.len(),
{
    if n == dependencies.len() {
        assert(dependencies.take(n) == dependencies);
    } else {
        assert(dependencies.drop_last().take(n) == dependencies.take(n));
        lemma_manual_stops(disk, collected, root, source_root, dependencies.drop_last(), n);
    }
}

} // verus!
