//! What holds of the search for a project: which manifest counts, and what comes of it.

use vstd::prelude::*;

use crate::chars::{trim_of, utf8_len};
use crate::config::ProjectSettings;
use crate::path_laws::{is_plain_directory, law_entry_lies_in_its_directory};
use crate::paths::{path_join, path_parent, path_starts_with, strip_tail};
use crate::project::collector::manifest_inside;
use crate::project::disk::{Disk, SimplexConfig, StopView};
use crate::project::error::ErrorView;
use crate::project::mappings::{with_root, MappingView};
use crate::project::{
    discovered, existing_ancestor, manifest_above, nearest_manifest, project_manifest,
    workspace_of, workspace_root_of, ContextView,
};
use crate::text_map::lookup;

verus! {

/// Whether a path is known to be a file, or known to be none.
pub open spec fn file_known(disk: Disk, path: Seq<char>, is_file: bool) -> bool {
    lookup(disk.files@, path) == Some(is_file)
}

/// Whether a path is known to lead to another.
pub open spec fn leads_to(disk: Disk, path: Seq<char>, canonical: Seq<char>) -> bool {
    lookup(disk.canonical@, path) matches Some(Ok(text)) && text@ == canonical
}

/// Whether a file is known to hold a manifest.
pub open spec fn holds_manifest(disk: Disk, path: Seq<char>, config: SimplexConfig) -> bool {
    lookup(disk.manifests@, path) matches Some(Ok(found)) && found == config
}

/// Whether a directory is known to have a manifest under the first of its names.
pub open spec fn has_manifest(disk: Disk, directory: Seq<char>) -> bool {
    file_known(disk, path_join(directory, "Simplex.toml"@), true)
}

/// Whether a directory is known to have no manifest under either name.
pub open spec fn has_no_manifest(disk: Disk, directory: Seq<char>) -> bool {
    &&& file_known(disk, path_join(directory, "Simplex.toml"@), false)
    &&& file_known(disk, path_join(directory, "simplex.toml"@), false)
}

/// Whether each of some directories lies in the next.
pub open spec fn lead_upwards(directories: Seq<Seq<char>>) -> bool {
    forall|i: int|
        0 <= i && i + 1 < directories.len() ==> path_parent(#[trigger] directories[i]) == Some(
            directories[i + 1],
        )
}

/// What is named below a directory lies in one.
proof fn lemma_named_lies_somewhere(directory: Seq<char>, name: Seq<char>)
    requires
        name.len() > 0,
        name[0] != '/',
        name.last() != '/',
        name.last() != '.',
    ensures
        path_parent(path_join(directory, name)) is Some,
{
    let path = path_join(directory, name);
    assert(path.last() == name.last());
    assert(strip_tail(path) == path);
    if path == seq!['/'] {
        assert(path.last() == '/');
    }
}

/// The manifest of a directory has one of two names, and the one in capitals counts where both are
/// there.
pub proof fn law_manifest_has_two_names(disk: Disk, directory: Seq<char>)
    ensures
        has_manifest(disk, directory) ==> manifest_inside(disk, directory) == Ok::<
            Option<Seq<char>>,
            StopView,
        >(Some(path_join(directory, "Simplex.toml"@))),
        file_known(disk, path_join(directory, "Simplex.toml"@), false) && file_known(
            disk,
            path_join(directory, "simplex.toml"@),
            true,
        ) ==> manifest_inside(disk, directory) == Ok::<Option<Seq<char>>, StopView>(
            Some(path_join(directory, "simplex.toml"@)),
        ),
        has_no_manifest(disk, directory) ==> manifest_inside(disk, directory) == Ok::<
            Option<Seq<char>>,
            StopView,
        >(None),
{
    reveal_strlit("Simplex.toml");
    reveal_strlit("simplex.toml");
    lemma_named_lies_somewhere(directory, "Simplex.toml"@);
    lemma_named_lies_somewhere(directory, "simplex.toml"@);
}

/// Of the directories above a path, the nearest one with a manifest gives it.
proof fn lemma_manifest_above(disk: Disk, directories: Seq<Seq<char>>)
    requires
        directories.len() > 0,
        lead_upwards(directories),
        forall|i: int|
            0 <= i < directories.len() - 1 ==> has_no_manifest(disk, #[trigger] directories[i]),
    ensures
        manifest_above(disk, directories[0]) == manifest_above(disk, directories.last()),
    decreases directories.len(),
{
    if directories.len() > 1 {
        let rest = directories.drop_first();
        assert forall|i: int| 0 <= i && i + 1 < rest.len() implies path_parent(
            #[trigger] rest[i],
        ) == Some(rest[i + 1]) by {
            assert(rest[i] == directories[i + 1]);
        }
        assert forall|i: int| 0 <= i < rest.len() - 1 implies has_no_manifest(
            disk,
            #[trigger] rest[i],
        ) by {
            assert(rest[i] == directories[i + 1]);
        }
        lemma_manifest_above(disk, rest);
        law_manifest_has_two_names(disk, directories[0]);
        assert(rest.last() == directories.last());
    }
}

/// A document's manifest is the one in its own directory, or else in the nearest one above it.
pub proof fn law_nearest_manifest_counts(
    disk: Disk,
    document: Seq<char>,
    directories: Seq<Seq<char>>,
)
    requires
        directories.len() > 0,
        lead_upwards(directories),
        forall|i: int|
            0 <= i < directories.len() - 1 ==> has_no_manifest(disk, #[trigger] directories[i]),
        lookup(disk.directories@, document) == Some(false),
        path_parent(document) == Some(directories[0]),
    ensures
        has_manifest(disk, directories.last()) ==> nearest_manifest(disk, document) == Ok::<
            Option<Seq<char>>,
            StopView,
        >(Some(path_join(directories.last(), "Simplex.toml"@))),
        has_no_manifest(disk, directories.last()) && path_parent(directories.last()) is None
            ==> nearest_manifest(disk, document) == Ok::<Option<Seq<char>>, StopView>(None),
{
    lemma_manifest_above(disk, directories);
    law_manifest_has_two_names(disk, directories.last());
}

/// A directory's manifest is looked for in itself first.
pub proof fn law_directory_has_its_own_manifest(disk: Disk, directory: Seq<char>)
    requires
        lookup(disk.directories@, directory) == Some(true),
        has_manifest(disk, directory),
    ensures
        nearest_manifest(disk, directory) == Ok::<Option<Seq<char>>, StopView>(
            Some(path_join(directory, "Simplex.toml"@)),
        ),
{
    law_manifest_has_two_names(disk, directory);
}

/// Where no manifest is to be looked for there is none. One that is set counts whatever the
/// directories above the document hold: it is a file, or the manifest in a directory, and where it
/// is neither the project is not read.
pub proof fn law_settings_choose_the_manifest(
    disk: Disk,
    document: Seq<char>,
    settings: ProjectSettings,
    workspace_root: Seq<char>,
    path: Seq<char>,
)
    requires
        path == path_join(workspace_root, trim_of(settings.simplex.manifest_path@)),
    ensures
        !settings.simplex.enabled ==> project_manifest(disk, document, settings, workspace_root)
            == Ok::<Option<Seq<char>>, StopView>(None),
        settings.simplex.enabled && trim_of(settings.simplex.manifest_path@).len() == 0
            ==> project_manifest(disk, document, settings, workspace_root) == nearest_manifest(
            disk,
            document,
        ),
        settings.simplex.enabled && trim_of(settings.simplex.manifest_path@).len() > 0 ==> {
            &&& file_known(disk, path, true) && path_parent(path) is Some ==> project_manifest(
                disk,
                document,
                settings,
                workspace_root,
            ) == Ok::<Option<Seq<char>>, StopView>(Some(path))
            &&& file_known(disk, path, false) && has_manifest(disk, path) ==> project_manifest(
                disk,
                document,
                settings,
                workspace_root,
            ) == Ok::<Option<Seq<char>>, StopView>(Some(path_join(path, "Simplex.toml"@)))
            &&& file_known(disk, path, false) && has_no_manifest(disk, path) ==> project_manifest(
                disk,
                document,
                settings,
                workspace_root,
            ) == Err::<Option<Seq<char>>, StopView>(
                StopView::Failed(ErrorView::MissingConfiguredManifest(path)),
            )
        },
{
    law_manifest_has_two_names(disk, path);
}

/// A document belongs to the longest workspace folder that it lies in, and to none where it lies in
/// none.
pub proof fn law_innermost_folder_counts(path: Seq<char>, roots: Seq<Seq<char>>, other: Seq<char>)
    ensures
        match workspace_of(path, roots) {
            Some(root) => {
                &&& roots.contains(root)
                &&& path_starts_with(path, root)
                &&& roots.contains(other) && path_starts_with(path, other) ==> utf8_len(other)
                    <= utf8_len(root)
            },
            None => roots.contains(other) ==> !path_starts_with(path, other),
        },
    decreases roots.len(),
{
    if roots.len() > 0 {
        let before = roots.drop_last();
        law_innermost_folder_counts(path, before, other);
        assert(before.push(roots.last()) =~= roots);
        assert(roots[roots.len() - 1] == roots.last());
        if let Some(root) = workspace_of(path, before) {
            let i = choose|i: int| 0 <= i < before.len() && before[i] == root;
            assert(roots[i] == root);
        }
        if roots.contains(other) {
            let i = choose|i: int| 0 <= i < roots.len() && roots[i] == other;
            if i < before.len() {
                assert(before[i] == other);
            }
        }
    }
}

/// The first root of a collection is all that it holds.
proof fn lemma_first_root(source: Seq<char>)
    ensures
        with_root(Seq::<Seq<char>>::empty(), source) == seq![source],
{
    assert(with_root(Seq::<Seq<char>>::empty(), source) =~= seq![source]);
}

/// A document with a manifest above it has the sources that the manifest names, below the
/// manifest's own directory.
pub proof fn law_manifest_names_the_sources(
    disk: Disk,
    document: Seq<char>,
    settings: ProjectSettings,
    roots: Seq<Seq<char>>,
    directory: Seq<char>,
    root: Seq<char>,
    config: SimplexConfig,
    source: Seq<char>,
)
    requires
        settings.is_default(),
        nearest_manifest(disk, document) == Ok::<Option<Seq<char>>, StopView>(
            Some(path_join(directory, "Simplex.toml"@)),
        ),
        is_plain_directory(directory),
        leads_to(disk, directory, root),
        holds_manifest(disk, path_join(directory, "Simplex.toml"@), config),
        config.dependencies@.len() == 0,
        leads_to(disk, path_join(root, config.src_dir@), source),
    ensures
        discovered(disk, document, settings, roots) == Ok::<ContextView, StopView>(
            ContextView {
                source_root: source,
                dependencies: Seq::<MappingView>::empty(),
                package_roots: seq![source],
            },
        ),
{
    reveal_strlit("Simplex.toml");
    law_entry_lies_in_its_directory(directory, "Simplex.toml"@);
    assert(trim_of(Seq::<char>::empty()) =~= Seq::<char>::empty());
    lemma_first_root(source);
}

/// A document without a manifest has the sources of its own directory.
pub proof fn law_lone_document_has_its_directory(
    disk: Disk,
    document: Seq<char>,
    settings: ProjectSettings,
    roots: Seq<Seq<char>>,
    directory: Seq<char>,
    root: Seq<char>,
    source: Seq<char>,
)
    requires
        settings.is_default(),
        nearest_manifest(disk, document) == Ok::<Option<Seq<char>>, StopView>(None),
        path_parent(document) == Some(directory),
        leads_to(disk, workspace_root_of(document, roots), root),
        leads_to(disk, directory, source),
    ensures
        discovered(disk, document, settings, roots) == Ok::<ContextView, StopView>(
            ContextView {
                source_root: source,
                dependencies: Seq::<MappingView>::empty(),
                package_roots: seq![source],
            },
        ),
{
    assert(trim_of(Seq::<char>::empty()) =~= Seq::<char>::empty());
    lemma_first_root(source);
}

/// A source directory that is set counts in the place of the manifest's, below the manifest's
/// directory.
pub proof fn law_source_directory_can_be_set(
    disk: Disk,
    document: Seq<char>,
    settings: ProjectSettings,
    roots: Seq<Seq<char>>,
    directory: Seq<char>,
    root: Seq<char>,
    config: SimplexConfig,
    source: Seq<char>,
)
    requires
        settings.simplex.is_default(),
        settings.dependencies@.len() == 0,
        trim_of(settings.source_directory@).len() > 0,
        nearest_manifest(disk, document) == Ok::<Option<Seq<char>>, StopView>(
            Some(path_join(directory, "Simplex.toml"@)),
        ),
        is_plain_directory(directory),
        leads_to(disk, directory, root),
        holds_manifest(disk, path_join(directory, "Simplex.toml"@), config),
        config.dependencies@.len() == 0,
        leads_to(disk, path_join(root, settings.source_directory@), source),
    ensures
        discovered(disk, document, settings, roots) == Ok::<ContextView, StopView>(
            ContextView {
                source_root: source,
                dependencies: Seq::<MappingView>::empty(),
                package_roots: seq![source],
            },
        ),
{
    reveal_strlit("Simplex.toml");
    law_entry_lies_in_its_directory(directory, "Simplex.toml"@);
    assert(trim_of(Seq::<char>::empty()) =~= Seq::<char>::empty());
    lemma_first_root(source);
}

/// A path that leads nowhere is that of the nearest directory above it that leads somewhere.
pub proof fn law_nearest_existing_directory_counts(
    disk: Disk,
    directories: Seq<Seq<char>>,
    canonical: Seq<char>,
)
    requires
        directories.len() > 0,
        lead_upwards(directories),
        forall|i: int|
            0 <= i < directories.len() - 1 ==> lookup(
                disk.canonical@,
                #[trigger] directories[i],
            ) matches Some(Err(_)),
        leads_to(disk, directories.last(), canonical),
    ensures
        existing_ancestor(disk, directories[0]) == Ok::<Seq<char>, StopView>(canonical),
    decreases directories.len(),
{
    if directories.len() > 1 {
        let rest = directories.drop_first();
        assert forall|i: int| 0 <= i && i + 1 < rest.len() implies path_parent(
            #[trigger] rest[i],
        ) == Some(rest[i + 1]) by {
            assert(rest[i] == directories[i + 1]);
        }
        assert forall|i: int| 0 <= i < rest.len() - 1 implies lookup(
            disk.canonical@,
            #[trigger] rest[i],
        ) matches Some(Err(_)) by {
            assert(rest[i] == directories[i + 1]);
        }
        assert(rest.last() == directories.last());
        law_nearest_existing_directory_counts(disk, rest, canonical);
        assert(lookup(disk.canonical@, directories[0]) matches Some(Err(_)));
    }
}

} // verus!
