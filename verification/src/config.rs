//! What an editor sets.

use vstd::prelude::*;

use crate::chars::{to_chars, trim, trim_of};
use crate::compiler::UnstableFeature;
use crate::text_map::TextMap;

verus! {

/// Runtime configuration shared by every editor client.
#[derive(Debug)]
pub struct Settings {
    pub experimental_features: ExperimentalFeatures,
    pub project: ProjectSettings,
}

/// Syntax that is not settled yet.
#[derive(Clone, Copy, Debug, PartialEq, Eq, Structural)]
pub struct ExperimentalFeatures {
    /// Enables `use`, `mod`, `pub`, aliases, and multi-file dependency resolution.
    pub imports: bool,
    /// Enables `enum` declarations.
    pub enums: bool,
}

/// Where the sources of a project and its dependencies are found.
#[derive(Debug)]
pub struct ProjectSettings {
    pub simplex: SimplexSettings,
    /// Optional source root used when no Simplex manifest is available.
    pub source_directory: String,
    /// Manual import-root mappings. These supplement, and on collision override, mappings
    /// discovered from `Simplex.toml`.
    pub dependencies: TextMap<ManualDependency>,
}

/// How the Simplex manifest is found.
#[derive(Debug)]
pub struct SimplexSettings {
    /// Automatically discover and load the nearest Simplex manifest.
    pub enabled: bool,
    /// Explicit manifest path. Relative values resolve from the containing workspace folder.
    pub manifest_path: String,
}

/// An import root that the user sets.
#[derive(Debug, PartialEq, Eq)]
pub enum ManualDependency {
    /// Shorthand: `"std": "../simplicityhl-std/simf"`.
    Path(String),
    /// Full form for context-specific compiler remappings.
    Detailed(ManualDependencyDetails),
}

/// An import root that is visible from a directory only.
#[derive(Debug, PartialEq, Eq)]
pub struct ManualDependencyDetails {
    pub path: String,
    pub context: String,
}

/// Nothing is enabled by default.
pub open spec fn no_features() -> ExperimentalFeatures {
    ExperimentalFeatures { imports: false, enums: false }
}

impl ProjectSettings {
    /// Whether these are the settings of a user who sets nothing: the nearest manifest is looked
    /// for, and there is no source directory and no manual dependency.
    pub open spec fn is_default(self) -> bool {
        &&& self.simplex.is_default()
        &&& self.source_directory@ == Seq::<char>::empty()
        &&& self.dependencies@ == Seq::<(Seq<char>, ManualDependency)>::empty()
    }
}

impl SimplexSettings {
    /// Whether the nearest manifest is looked for.
    pub open spec fn is_default(self) -> bool {
        self.enabled && self.manifest_path@ == Seq::<char>::empty()
    }
}

impl Default for ExperimentalFeatures {
    fn default() -> (r: ExperimentalFeatures)
        ensures
            r == no_features(),
    {
        ExperimentalFeatures { imports: false, enums: false }
    }
}

impl Default for SimplexSettings {
    fn default() -> (r: SimplexSettings)
        ensures
            r.is_default(),
    {
        SimplexSettings { enabled: true, manifest_path: String::new() }
    }
}

impl Default for ProjectSettings {
    fn default() -> (r: ProjectSettings)
        ensures
            r.is_default(),
    {
        ProjectSettings {
            simplex: SimplexSettings { enabled: true, manifest_path: String::new() },
            source_directory: String::new(),
            dependencies: TextMap::new(),
        }
    }
}

impl Default for Settings {
    fn default() -> (r: Settings)
        ensures
            r.experimental_features == no_features(),
            r.project.is_default(),
    {
        Settings {
            experimental_features: ExperimentalFeatures { imports: false, enums: false },
            project: ProjectSettings {
                simplex: SimplexSettings { enabled: true, manifest_path: String::new() },
                source_directory: String::new(),
                dependencies: TextMap::new(),
            },
        }
    }
}

impl Default for ManualDependencyDetails {
    fn default() -> (r: ManualDependencyDetails)
        ensures
            r.path@ == Seq::<char>::empty(),
            r.context@ == Seq::<char>::empty(),
    {
        ManualDependencyDetails { path: String::new(), context: String::new() }
    }
}

impl ManualDependency {
    /// The path of the import root.
    pub open spec fn path_text(self) -> Seq<char> {
        match self {
            ManualDependency::Path(path) => path@,
            ManualDependency::Detailed(details) => details.path@,
        }
    }

    /// The directory that the import root is visible from, where one is set.
    pub open spec fn context_text(self) -> Option<Seq<char>> {
        match self {
            ManualDependency::Path(_) => None,
            ManualDependency::Detailed(details) => if trim_of(details.context@).len() == 0 {
                None
            } else {
                Some(details.context@)
            },
        }
    }

    pub fn path(&self) -> (r: &str)
        ensures
            r@ == self.path_text(),
    {
        match self {
            ManualDependency::Path(path) => path.as_str(),
            ManualDependency::Detailed(details) => details.path.as_str(),
        }
    }

    pub fn context(&self) -> (r: Option<&str>)
        ensures
            match r {
                Some(context) => self.context_text() == Some(context@),
                None => self.context_text() is None,
            },
    {
        match self {
            ManualDependency::Path(_) => None,
            ManualDependency::Detailed(details) => {
                if trim(to_chars(details.context.as_str()).as_slice()).len() == 0 {
                    None
                } else {
                    Some(details.context.as_str())
                }
            },
        }
    }
}

/// The features of the compiler that are enabled.
pub open spec fn enabled_features(features: ExperimentalFeatures) -> Seq<UnstableFeature> {
    (if features.imports {
        seq![UnstableFeature::Imports]
    } else {
        Seq::empty()
    }) + (if features.enums {
        seq![UnstableFeature::Enums]
    } else {
        Seq::empty()
    })
}

impl Settings {
    pub fn unstable_features(&self) -> (r: Vec<UnstableFeature>)
        ensures
            r@ == enabled_features(self.experimental_features),
    {
        let mut enabled: Vec<UnstableFeature> = Vec::new();
        if self.experimental_features.imports {
            enabled.push(UnstableFeature::Imports);
        }
        if self.experimental_features.enums {
            enabled.push(UnstableFeature::Enums);
        }
        assert(enabled@ =~= enabled_features(self.experimental_features));
        enabled
    }
}

/// A feature of the compiler is enabled exactly where its setting is, and none is enabled twice.
pub proof fn law_features_follow_their_settings(features: ExperimentalFeatures)
    ensures
        enabled_features(features).contains(UnstableFeature::Imports) <==> features.imports,
        enabled_features(features).contains(UnstableFeature::Enums) <==> features.enums,
        enabled_features(features).no_duplicates(),
{
    let enabled = enabled_features(features);
    if features.imports {
        assert(enabled[0] == UnstableFeature::Imports);
    }
    if features.enums {
        assert(enabled[enabled.len() - 1] == UnstableFeature::Enums);
    }
}

/// An import root is seen from everywhere in the project unless a directory is set that it is seen
/// from. One of white space alone is not set.
pub proof fn law_context_can_be_set(path: String, details: ManualDependencyDetails)
    ensures
        ManualDependency::Path(path).context_text() is None,
        ManualDependency::Path(path).path_text() == path@,
        ManualDependency::Detailed(details).path_text() == details.path@,
        trim_of(details.context@).len() == 0 ==> ManualDependency::Detailed(
            details,
        ).context_text() is None,
        trim_of(details.context@).len() > 0 ==> ManualDependency::Detailed(details).context_text()
            == Some(details.context@),
{
}

} // verus!
