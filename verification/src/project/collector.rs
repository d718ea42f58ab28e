//! The dependencies of a package, and theirs in turn.

use vstd::prelude::*;

use crate::order::{contains_text, texts};
use crate::paths::{join, path_join};
use crate::project::disk::{
    canonical_of, is_file_at, manifest_of, opt_text_found, text_found, DependencyConfig, Disk,
    SimplexConfig, Stop, StopView,
};
use crate::project::error::{ErrorView, ProjectError};
use crate::project::git::{hashed_repository_path, repository_directory};
use crate::project::mappings::{
    insert_mapping, insert_root, mapping_views, with_mapping, with_root, DependencyMapping,
    MappingView,
};
use crate::protocol::opt_text;
use crate::text_map::{place_of, TextMap};

verus! {

/// What is collected of a project's dependencies.
#[derive(Debug)]
pub struct ProjectCollector {
    /// The directory below which git dependencies are installed.
    pub install_root: String,
    /// The packages that were looked into.
    pub visited: Vec<String>,
    pub mappings: Vec<DependencyMapping>,
    pub package_roots: Vec<String>,
}

/// What a [`ProjectCollector`] says.
#[verifier::ext_equal]
pub struct CollectedView {
    pub install_root: Seq<char>,
    pub visited: Seq<Seq<char>>,
    pub mappings: Seq<MappingView>,
    pub package_roots: Seq<Seq<char>>,
}

impl View for ProjectCollector {
    type V = CollectedView;

    open spec fn view(&self) -> CollectedView {
        CollectedView {
            install_root: self.install_root@,
            visited: texts(self.visited@),
            mappings: mapping_views(self.mappings@),
            package_roots: texts(self.package_roots@),
        }
    }
}

/// The manifest in a directory, by either spelling of its name.
pub open spec fn manifest_inside(disk: Disk, directory: Seq<char>) -> Result<
    Option<Seq<char>>,
    StopView,
> {
    let upper = path_join(directory, "Simplex.toml"@);
    let lower = path_join(directory, "simplex.toml"@);
    match is_file_at(disk, upper) {
        Err(stop) => Err(stop),
        Ok(true) => Ok(Some(upper)),
        Ok(false) => match is_file_at(disk, lower) {
            Err(stop) => Err(stop),
            Ok(true) => Ok(Some(lower)),
            Ok(false) => Ok(None),
        },
    }
}

/// The manifest in a directory.
pub fn manifest_in(disk: &Disk, directory: &str) -> (r: Result<Option<String>, Stop>)
    ensures
        opt_text_found(r) == manifest_inside(*disk, directory@),
{
    let upper: String = join(directory, "Simplex.toml");
    match disk.is_file(upper.as_str()) {
        Err(stop) => return Err(stop),
        Ok(true) => return Ok(Some(upper)),
        Ok(false) => {},
    }
    let lower: String = join(directory, "simplex.toml");
    match disk.is_file(lower.as_str()) {
        Err(stop) => Err(stop),
        Ok(true) => Ok(Some(lower)),
        Ok(false) => Ok(None),
    }
}

/// The revision or the tag of a git dependency.
pub open spec fn git_reference(dependency: DependencyConfig) -> Option<Seq<char>> {
    match dependency.rev {
        Some(rev) => Some(rev@),
        None => opt_text(dependency.tag),
    }
}

/// The directory of a dependency. It is given by a path below the package, or by the URL of a git
/// repository with at most one of a revision and a tag.
pub open spec fn dependency_root(
    disk: Disk,
    install_root: Seq<char>,
    package_root: Seq<char>,
    name: Seq<char>,
    dependency: DependencyConfig,
) -> Result<Seq<char>, StopView> {
    let referenced = dependency.rev is Some || dependency.tag is Some;
    let conflicting = dependency.rev is Some && dependency.tag is Some;
    match (dependency.path, dependency.git) {
        (Some(path), None) if !referenced => canonical_of(disk, path_join(package_root, path@)),
        (None, Some(url)) if !conflicting => match repository_directory(
            url@,
            git_reference(dependency),
        ) {
            Err(error) => Err(StopView::Failed(error)),
            Ok(directory) => {
                let expected = path_join(path_join(install_root, "deps"@), directory);
                match canonical_of(disk, expected) {
                    Err(StopView::Failed(_)) => Err(
                        StopView::Failed(
                            ErrorView::MissingGitDependency { name, url: url@, expected },
                        ),
                    ),
                    other => other,
                }
            },
        },
        _ => Err(
            StopView::Failed(
                ErrorView::InvalidDependency {
                    name,
                    manifest: path_join(package_root, "Simplex.toml"@),
                },
            ),
        ),
    }
}

/// A dependency that was found: its directory, its manifest and the directory of its sources.
pub struct Package {
    pub root: Seq<char>,
    pub config: SimplexConfig,
    pub source: Seq<char>,
}

/// Finds a dependency.
pub open spec fn dependency_package(
    disk: Disk,
    install_root: Seq<char>,
    package_root: Seq<char>,
    name: Seq<char>,
    dependency: DependencyConfig,
) -> Result<Package, StopView> {
    match dependency_root(disk, install_root, package_root, name, dependency) {
        Err(stop) => Err(stop),
        Ok(root) => match manifest_inside(disk, root) {
            Err(stop) => Err(stop),
            Ok(None) => Err(
                StopView::Failed(ErrorView::MissingDependencyManifest { name, root }),
            ),
            Ok(Some(manifest)) => match manifest_of(disk, manifest) {
                Err(stop) => Err(stop),
                Ok(config) => match canonical_of(disk, path_join(root, config.src_dir@)) {
                    Err(stop) => Err(stop),
                    Ok(source) => Ok(Package { root, config, source }),
                },
            },
        },
    }
}

/// How many of the canonical paths that are known were not looked into.
pub open spec fn unvisited(
    known: Seq<(Seq<char>, Result<String, String>)>,
    visited: Seq<Seq<char>>,
) -> nat
    decreases known.len(),
{
    if known.len() == 0 {
        0
    } else {
        unvisited(known.drop_last(), visited) + (match known.last().1 {
            Ok(path) => if visited.contains(path@) {
                0nat
            } else {
                1nat
            },
            Err(_) => 0nat,
        })
    }
}

/// Whether all of one list is in another.
pub open spec fn within(less: Seq<Seq<char>>, more: Seq<Seq<char>>) -> bool {
    forall|path: Seq<char>| #[trigger] less.contains(path) ==> more.contains(path)
}

/// Looking into more packages leaves fewer.
pub proof fn lemma_unvisited_shrinks(
    known: Seq<(Seq<char>, Result<String, String>)>,
    less: Seq<Seq<char>>,
    more: Seq<Seq<char>>,
)
    requires
        within(less, more),
    ensures
        unvisited(known, more) <= unvisited(known, less),
    decreases known.len(),
{
    if known.len() > 0 {
        lemma_unvisited_shrinks(known.drop_last(), less, more);
    }
}

/// Looking into a package that is known leaves fewer.
pub proof fn lemma_visit_leaves_fewer(
    known: Seq<(Seq<char>, Result<String, String>)>,
    visited: Seq<Seq<char>>,
    path: Seq<char>,
    i: int,
)
    requires
        0 <= i < known.len(),
        known[i].1 matches Ok(canonical) && canonical@ == path,
        !visited.contains(path),
    ensures
        unvisited(known, visited.push(path)) < unvisited(known, visited),
    decreases known.len(),
{
    let more = visited.push(path);
    assert(more[visited.len() as int] == path);
    assert(within(visited, more)) by {
        assert forall|other: Seq<char>| #[trigger] visited.contains(other) implies more.contains(
            other,
        ) by {
            let k = choose|k: int| 0 <= k < visited.len() && visited[k] == other;
            assert(more[k] == other);
        }
    }
    if i == known.len() - 1 {
        lemma_unvisited_shrinks(known.drop_last(), visited, more);
        assert(more.contains(path));
    } else {
        lemma_visit_leaves_fewer(known.drop_last(), visited, path, i);
    }
}

/// The directory of a dependency is one of the canonical paths that are known.
pub proof fn lemma_root_is_known(
    disk: Disk,
    install_root: Seq<char>,
    package_root: Seq<char>,
    name: Seq<char>,
    dependency: DependencyConfig,
) -> (i: int)
    requires
        dependency_root(disk, install_root, package_root, name, dependency) is Ok,
    ensures
        0 <= i < disk.canonical@.len(),
        disk.canonical@[i].1 matches Ok(canonical) && dependency_root(
            disk,
            install_root,
            package_root,
            name,
            dependency,
        ) == Ok::<Seq<char>, StopView>(canonical@),
{
    let asked = match (dependency.path, dependency.git) {
        (Some(path), None) => path_join(package_root, path@),
        _ => path_join(
            path_join(install_root, "deps"@),
            repository_directory(dependency.git->0@, git_reference(dependency))->Ok_0,
        ),
    };
    place_of(disk.canonical@, asked)
}

/// What is collected with one more package.
pub open spec fn with_package(
    collected: CollectedView,
    source_root: Seq<char>,
    name: Seq<char>,
    package: Package,
) -> CollectedView {
    CollectedView {
        mappings: with_mapping(
            collected.mappings,
            MappingView { context: source_root, alias: name, target: package.source },
        ),
        package_roots: with_root(collected.package_roots, package.source),
        ..collected
    }
}

/// A package that is looked into.
pub open spec fn with_visit(collected: CollectedView, root: Seq<char>) -> CollectedView {
    CollectedView { visited: collected.visited.push(root), ..collected }
}

/// What is collected of the dependencies of a package from the `i`-th on, in the order of their
/// names, each followed by those of its own unless it was looked into before.
pub open spec fn collected_from(
    disk: Disk,
    collected: CollectedView,
    dependencies: Seq<(Seq<char>, DependencyConfig)>,
    i: int,
    package_root: Seq<char>,
    source_root: Seq<char>,
) -> Result<CollectedView, StopView>
    decreases unvisited(disk.canonical@, collected.visited), dependencies.len() - i,
{
    if i < 0 || i >= dependencies.len() {
        Ok(collected)
    } else {
        let (name, dependency) = dependencies[i];
        match dependency_package(disk, collected.install_root, package_root, name, dependency) {
            Err(stop) => Err(stop),
            Ok(package) => {
                let found = with_package(collected, source_root, name, package);
                if collected.visited.contains(package.root) {
                    collected_from(disk, found, dependencies, i + 1, package_root, source_root)
                } else {
                    proof {
                        let k = lemma_root_is_known(
                            disk,
                            collected.install_root,
                            package_root,
                            name,
                            dependency,
                        );
                        lemma_visit_leaves_fewer(
                            disk.canonical@,
                            collected.visited,
                            package.root,
                            k,
                        );
                    }
                    match collected_from(
                        disk,
                        with_visit(found, package.root),
                        package.config.dependencies@,
                        0,
                        package.root,
                        package.source,
                    ) {
                        Err(stop) => Err(stop),
                        Ok(inner) => if unvisited(disk.canonical@, inner.visited) < unvisited(
                            disk.canonical@,
                            collected.visited,
                        ) {
                            collected_from(
                                disk,
                                inner,
                                dependencies,
                                i + 1,
                                package_root,
                                source_root,
                            )
                        } else {
                            Ok(inner)
                        },
                    }
                }
            },
        }
    }
}

/// What is collected of the dependencies of a package from the `i`-th on until the search stops.
pub open spec fn collected_until(
    disk: Disk,
    collected: CollectedView,
    dependencies: Seq<(Seq<char>, DependencyConfig)>,
    i: int,
    package_root: Seq<char>,
    source_root: Seq<char>,
) -> CollectedView
    decreases unvisited(disk.canonical@, collected.visited), dependencies.len() - i,
{
    if i < 0 || i >= dependencies.len() {
        collected
    } else {
        let (name, dependency) = dependencies[i];
        match dependency_package(disk, collected.install_root, package_root, name, dependency) {
            Err(_) => collected,
            Ok(package) => {
                let found = with_package(collected, source_root, name, package);
                let inside = with_visit(found, package.root);
                if collected.visited.contains(package.root) {
                    collected_until(disk, found, dependencies, i + 1, package_root, source_root)
                } else {
                    proof {
                        let k = lemma_root_is_known(
                            disk,
                            collected.install_root,
                            package_root,
                            name,
                            dependency,
                        );
                        lemma_visit_leaves_fewer(
                            disk.canonical@,
                            collected.visited,
                            package.root,
                            k,
                        );
                    }
                    match collected_from(
                        disk,
                        inside,
                        package.config.dependencies@,
                        0,
                        package.root,
                        package.source,
                    ) {
                        Err(_) => collected_until(
                            disk,
                            inside,
                            package.config.dependencies@,
                            0,
                            package.root,
                            package.source,
                        ),
                        Ok(inner) => if unvisited(disk.canonical@, inner.visited) < unvisited(
                            disk.canonical@,
                            collected.visited,
                        ) {
                            collected_until(
                                disk,
                                inner,
                                dependencies,
                                i + 1,
                                package_root,
                                source_root,
                            )
                        } else {
                            inner
                        },
                    }
                }
            },
        }
    }
}

/// Nothing that was looked into is forgotten, and the place of git dependencies stays.
pub proof fn lemma_visits_stay(
    disk: Disk,
    collected: CollectedView,
    dependencies: Seq<(Seq<char>, DependencyConfig)>,
    i: int,
    package_root: Seq<char>,
    source_root: Seq<char>,
)
    ensures
        collected_from(disk, collected, dependencies, i, package_root, source_root) matches Ok(
            result,
        ) ==> within(collected.visited, result.visited) && result.install_root
            == collected.install_root,
    decreases unvisited(disk.canonical@, collected.visited), dependencies.len() - i,
{
    if 0 <= i < dependencies.len() {
        let (name, dependency) = dependencies[i];
        if let Ok(package) = dependency_package(
            disk,
            collected.install_root,
            package_root,
            name,
            dependency,
        ) {
            let found = with_package(collected, source_root, name, package);
            if collected.visited.contains(package.root) {
                lemma_visits_stay(disk, found, dependencies, i + 1, package_root, source_root);
            } else {
                let k = lemma_root_is_known(
                    disk,
                    collected.install_root,
                    package_root,
                    name,
                    dependency,
                );
                lemma_visit_leaves_fewer(disk.canonical@, collected.visited, package.root, k);
                let begun = with_visit(found, package.root);
                lemma_push_keeps(collected.visited, package.root);
                lemma_visits_stay(
                    disk,
                    begun,
                    package.config.dependencies@,
                    0,
                    package.root,
                    package.source,
                );
                if let Ok(inner) = collected_from(
                    disk,
                    begun,
                    package.config.dependencies@,
                    0,
                    package.root,
                    package.source,
                ) {
                    lemma_unvisited_shrinks(disk.canonical@, begun.visited, inner.visited);
                    lemma_visits_stay(disk, inner, dependencies, i + 1, package_root, source_root);
                }
            }
        }
    }
}

/// A list with one more holds what it held.
proof fn lemma_push_keeps(list: Seq<Seq<char>>, path: Seq<char>)
    ensures
        within(list, list.push(path)),
{
    let more = list.push(path);
    assert forall|other: Seq<char>| #[trigger] list.contains(other) implies more.contains(other) by {
        let k = choose|k: int| 0 <= k < list.len() && list[k] == other;
        assert(more[k] == other);
    }
}

/// A package is looked into before the dependencies that follow it, and those are then collected
/// with what came of it.
pub proof fn law_dependencies_are_collected_in_depth(
    disk: Disk,
    collected: CollectedView,
    dependencies: Seq<(Seq<char>, DependencyConfig)>,
    i: int,
    package_root: Seq<char>,
    source_root: Seq<char>,
    package: Package,
)
    requires
        0 <= i < dependencies.len(),
        dependency_package(
            disk,
            collected.install_root,
            package_root,
            dependencies[i].0,
            dependencies[i].1,
        ) == Ok::<Package, StopView>(package),
        !collected.visited.contains(package.root),
    ensures
        collected_from(disk, collected, dependencies, i, package_root, source_root) == (
        match collected_from(
            disk,
            with_visit(
                with_package(collected, source_root, dependencies[i].0, package),
                package.root,
            ),
            package.config.dependencies@,
            0,
            package.root,
            package.source,
        ) {
            Err(stop) => Err(stop),
            Ok(inner) => collected_from(
                disk,
                inner,
                dependencies,
                i + 1,
                package_root,
                source_root,
            ),
        }),
        collected_from(
            disk,
            with_visit(
                with_package(collected, source_root, dependencies[i].0, package),
                package.root,
            ),
            package.config.dependencies@,
            0,
            package.root,
            package.source,
        ) matches Ok(inner) ==> unvisited(disk.canonical@, inner.visited) < unvisited(
            disk.canonical@,
            collected.visited,
        ),
        unvisited(disk.canonical@, collected.visited.push(package.root)) < unvisited(
            disk.canonical@,
            collected.visited,
        ),
{
    let (name, dependency) = dependencies[i];
    let k = lemma_root_is_known(
        disk,
        collected.install_root,
        package_root,
        name,
        dependency,
    );
    lemma_visit_leaves_fewer(disk.canonical@, collected.visited, package.root, k);
    let begun = with_visit(with_package(collected, source_root, name, package), package.root);
    lemma_visits_stay(
        disk,
        begun,
        package.config.dependencies@,
        0,
        package.root,
        package.source,
    );
    if let Ok(inner) = collected_from(
        disk,
        begun,
        package.config.dependencies@,
        0,
        package.root,
        package.source,
    ) {
        lemma_unvisited_shrinks(disk.canonical@, begun.visited, inner.visited);
    }
}

impl ProjectCollector {
    /// A collector that holds nothing but where git dependencies are installed.
    pub fn new(install_root: String) -> (r: ProjectCollector)
        ensures
            r@ == (CollectedView {
                install_root: install_root@,
                visited: Seq::empty(),
                mappings: Seq::empty(),
                package_roots: Seq::empty(),
            }),
    {
        let r = ProjectCollector {
            install_root,
            visited: Vec::new(),
            mappings: Vec::new(),
            package_roots: Vec::new(),
        };
        assert(r@.visited =~= Seq::<Seq<char>>::empty());
        assert(r@.mappings =~= Seq::<MappingView>::empty());
        assert(r@.package_roots =~= Seq::<Seq<char>>::empty());
        r
    }

    /// The directory of a dependency.
    fn resolve_dependency(
        &self,
        disk: &Disk,
        name: &str,
        dependency: &DependencyConfig,
        package_root: &str,
    ) -> (r: Result<String, Stop>)
        ensures
            text_found(r) == dependency_root(
                *disk,
                self@.install_root,
                package_root@,
                name@,
                *dependency,
            ),
    {
        let referenced: bool = dependency.rev.is_some() || dependency.tag.is_some();
        let conflicting: bool = dependency.rev.is_some() && dependency.tag.is_some();
        match (&dependency.path, &dependency.git) {
            (Some(path), None) if !referenced => disk.canonicalize(
                join(package_root, path.as_str()).as_str(),
            ),
            (None, Some(url)) if !conflicting => {
                let reference: Option<&str> = match &dependency.rev {
                    Some(rev) => Some(rev.as_str()),
                    None => match &dependency.tag {
                        Some(tag) => Some(tag.as_str()),
                        None => None,
                    },
                };
                let directory: String = match hashed_repository_path(url.as_str(), reference) {
                    Ok(directory) => directory,
                    Err(error) => return Err(Stop::Failed(error)),
                };
                let installed: String = join(self.install_root.as_str(), "deps");
                let expected: String = join(installed.as_str(), directory.as_str());
                match disk.canonicalize(expected.as_str()) {
                    Err(Stop::Failed(_)) => Err(
                        Stop::Failed(
                            ProjectError::MissingGitDependency {
                                name: name.to_owned(),
                                url: url.clone(),
                                expected,
                            },
                        ),
                    ),
                    other => other,
                }
            },
            _ => Err(
                Stop::Failed(
                    ProjectError::InvalidDependency {
                        name: name.to_owned(),
                        manifest: join(package_root, "Simplex.toml"),
                    },
                ),
            ),
        }
    }

    /// Finds a dependency: its directory, its manifest and the directory of its sources.
    fn find_package<'a>(
        &self,
        disk: &'a Disk,
        name: &str,
        dependency: &DependencyConfig,
        package_root: &str,
    ) -> (r: Result<(String, &'a SimplexConfig, String), Stop>)
        ensures
            match r {
                Ok((root, config, source)) => dependency_package(
                    *disk,
                    self@.install_root,
                    package_root@,
                    name@,
                    *dependency,
                ) == Ok::<Package, StopView>(
                    Package { root: root@, config: *config, source: source@ },
                ),
                Err(stop) => dependency_package(
                    *disk,
                    self@.install_root,
                    package_root@,
                    name@,
                    *dependency,
                ) == Err::<Package, StopView>(stop@),
            },
    {
        let root: String = match self.resolve_dependency(disk, name, dependency, package_root) {
            Ok(root) => root,
            Err(stop) => return Err(stop),
        };
        let manifest: String = match manifest_in(disk, root.as_str()) {
            Ok(Some(manifest)) => manifest,
            Ok(None) => {
                return Err(
                    Stop::Failed(
                        ProjectError::MissingDependencyManifest { name: name.to_owned(), root },
                    ),
                );
            },
            Err(stop) => return Err(stop),
        };
        let config: &SimplexConfig = match disk.load_manifest(manifest.as_str()) {
            Ok(config) => config,
            Err(stop) => return Err(stop),
        };
        match disk.canonicalize(join(root.as_str(), config.src_dir.as_str()).as_str()) {
            Ok(source) => Ok((root, config, source)),
            Err(stop) => Err(stop),
        }
    }

    /// Collects dependencies of a package, each followed by those of its own.
    fn collect_dependencies(
        &mut self,
        disk: &Disk,
        dependencies: &TextMap<DependencyConfig>,
        package_root: &str,
        source_root: &str,
    ) -> (r: Result<(), Stop>)
        ensures
            match r {
                Ok(_) => collected_from(
                    *disk,
                    old(self)@,
                    dependencies@,
                    0,
                    package_root@,
                    source_root@,
                ) == Ok::<CollectedView, StopView>(final(self)@),
                Err(stop) => collected_from(
                    *disk,
                    old(self)@,
                    dependencies@,
                    0,
                    package_root@,
                    source_root@,
                ) == Err::<CollectedView, StopView>(stop@) && final(self)@ == collected_until(
                    *disk,
                    old(self)@,
                    dependencies@,
                    0,
                    package_root@,
                    source_root@,
                ),
            },
        decreases unvisited(disk.canonical@, old(self)@.visited),
    {
        let ghost begun = self@;
        let mut i: usize = 0;
        while i < dependencies.len()
            invariant
                i <= dependencies@.len(),
                begun == old(self)@,
                unvisited(disk.canonical@, self@.visited) <= unvisited(
                    disk.canonical@,
                    begun.visited,
                ),
                collected_from(
                    *disk,
                    begun,
                    dependencies@,
                    0,
                    package_root@,
                    source_root@,
                ) == collected_from(
                    *disk,
                    self@,
                    dependencies@,
                    i as int,
                    package_root@,
                    source_root@,
                ),
                collected_until(
                    *disk,
                    begun,
                    dependencies@,
                    0,
                    package_root@,
                    source_root@,
                ) == collected_until(
                    *disk,
                    self@,
                    dependencies@,
                    i as int,
                    package_root@,
                    source_root@,
                ),
            decreases dependencies@.len() - i,
        {
            let ghost before = self@;
            let name: &String = dependencies.key_at(i);
            let (root, config, source): (String, &SimplexConfig, String) = match self.find_package(
                disk,
                name.as_str(),
                dependencies.value_at(i),
                package_root,
            ) {
                Ok(found) => found,
                Err(stop) => return Err(stop),
            };
            let ghost package = Package { root: root@, config: *config, source: source@ };
            insert_mapping(
                &mut self.mappings,
                DependencyMapping {
                    context: source_root.to_owned(),
                    alias: name.clone(),
                    target: source.clone(),
                },
            );
            insert_root(&mut self.package_roots, source.clone());
            let ghost found = with_package(before, source_root@, name@, package);
            assert(self@ =~= found);
            if !contains_text(self.visited.as_slice(), root.as_str()) {
                proof {
                    law_dependencies_are_collected_in_depth(
                        *disk,
                        before,
                        dependencies@,
                        i as int,
                        package_root@,
                        source_root@,
                        package,
                    );
                }
                let ghost visited = self@.visited;
                self.visited.push(root.clone());
                assert(self@.visited =~= visited.push(root@));
                assert(self@ =~= with_visit(found, root@));
                match self.collect_dependencies(
                    disk,
                    &config.dependencies,
                    root.as_str(),
                    source.as_str(),
                ) {
                    Ok(_) => {},
                    Err(stop) => return Err(stop),
                }
            }
            i = i + 1;
        }
        Ok(())
    }

    /// Collects the dependencies of a package. Where the search stops, what was collected before stays.
    pub fn collect(
        &mut self,
        disk: &Disk,
        config: &SimplexConfig,
        package_root: &str,
        source_root: &str,
    ) -> (r: Result<(), Stop>)
        ensures
            match r {
                Ok(_) => collected_from(
                    *disk,
                    with_visit(old(self)@, package_root@),
                    config.dependencies@,
                    0,
                    package_root@,
                    source_root@,
                ) == Ok::<CollectedView, StopView>(final(self)@),
                Err(stop) => collected_from(
                    *disk,
                    with_visit(old(self)@, package_root@),
                    config.dependencies@,
                    0,
                    package_root@,
                    source_root@,
                ) == Err::<CollectedView, StopView>(stop@) && final(self)@ == collected_until(
                    *disk,
                    with_visit(old(self)@, package_root@),
                    config.dependencies@,
                    0,
                    package_root@,
                    source_root@,
                ),
            },
    {
        let ghost before = self@;
        self.visited.push(package_root.to_owned());
        assert(self@.visited =~= before.visited.push(package_root@));
        assert(self@ =~= with_visit(before, package_root@));
        self.collect_dependencies(disk, &config.dependencies, package_root, source_root)
    }
}

} // verus!
