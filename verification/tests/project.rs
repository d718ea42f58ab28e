use std::collections::BTreeMap;

use simplicityhl_lsp::config::{
    ManualDependency, ManualDependencyDetails, ProjectSettings, SimplexSettings,
};
use simplicityhl_lsp::paths::{extension, file_name, file_stem, is_absolute, join, parent, starts_with};
use simplicityhl_lsp::project::disk::{
    DependencyConfig, Disk, ManifestFailure, Question, SimplexConfig, Stop,
};
use simplicityhl_lsp::project::error::ProjectError;
use simplicityhl_lsp::project::git::hashed_repository_path;
use simplicityhl_lsp::project::mappings::DependencyMapping;
use simplicityhl_lsp::project::{find_manifest, ProjectContext};

/// The files of a project by their paths, and links from one directory to another.
struct Files {
    texts: BTreeMap<String, String>,
    links: BTreeMap<String, String>,
}

impl Files {
    fn new() -> Self {
        Self {
            texts: BTreeMap::new(),
            links: BTreeMap::new(),
        }
    }

    fn write(&mut self, path: &str, text: &str) {
        self.texts.insert(path.to_string(), text.to_string());
    }

    fn is_directory(&self, path: &str) -> bool {
        let prefix = format!("{}/", path.trim_end_matches('/'));
        self.texts.keys().any(|known| known.starts_with(&prefix))
    }

    /// The path without dots and links, where something is there.
    fn canonical(&self, path: &str) -> Result<String, String> {
        let mut components: Vec<&str> = Vec::new();
        for component in path.split('/') {
            match component {
                "" | "." => {}
                ".." => {
                    components.pop();
                }
                name => components.push(name),
            }
        }
        let mut canonical = format!("/{}", components.join("/"));
        for (link, target) in &self.links {
            if canonical == *link || canonical.starts_with(&format!("{link}/")) {
                canonical = format!("{target}{}", &canonical[link.len()..]);
            }
        }
        if self.texts.contains_key(&canonical) || self.is_directory(&canonical) {
            Ok(canonical)
        } else {
            Err("No such file or directory".to_string())
        }
    }

    fn manifest(&self, path: &str) -> Result<SimplexConfig, ManifestFailure> {
        let text = self
            .texts
            .get(path)
            .ok_or_else(|| ManifestFailure::Read("unreadable".to_string()))?;
        let table = text
            .parse::<toml::Table>()
            .map_err(|error| ManifestFailure::Parse(error.to_string()))?;
        let mut config = SimplexConfig::default();
        if let Some(directory) = table.get("build").and_then(|build| build.get("src_dir")) {
            config.src_dir = directory.as_str().expect("a text").to_string();
        }
        if let Some(dependencies) = table.get("dependencies").and_then(toml::Value::as_table) {
            for (name, value) in dependencies {
                let field = |key: &str| {
                    value
                        .get(key)
                        .and_then(toml::Value::as_str)
                        .map(str::to_string)
                };
                config.dependencies.insert(
                    name.clone(),
                    DependencyConfig {
                        path: field("path"),
                        git: field("git"),
                        rev: field("rev"),
                        tag: field("tag"),
                    },
                );
            }
        }
        Ok(config)
    }

    fn answer(&self, disk: &mut Disk, question: Question) {
        match question {
            Question::Canonical(path) => {
                let answer = self.canonical(&path);
                disk.canonical.insert(path, answer);
            }
            Question::IsFile(path) => {
                let answer = self
                    .canonical(&path)
                    .is_ok_and(|canonical| self.texts.contains_key(&canonical));
                disk.files.insert(path, answer);
            }
            Question::IsDirectory(path) => {
                let answer = self
                    .canonical(&path)
                    .is_ok_and(|canonical| self.is_directory(&canonical));
                disk.directories.insert(path, answer);
            }
            Question::Manifest(path) => {
                let answer = match self.canonical(&path) {
                    Ok(canonical) => self.manifest(&canonical),
                    Err(error) => Err(ManifestFailure::Read(error)),
                };
                disk.manifests.insert(path, answer);
            }
            other => panic!("unexpected question {other:?}"),
        }
    }

    fn discover(
        &self,
        document: &str,
        settings: &ProjectSettings,
        roots: &[&str],
    ) -> Result<ProjectContext, ProjectError> {
        let roots: Vec<String> = roots.iter().map(|root| root.to_string()).collect();
        let mut disk = Disk::new();
        loop {
            match ProjectContext::discover(document, settings, &roots, &disk) {
                Ok(context) => return Ok(context),
                Err(Stop::Failed(error)) => return Err(error),
                Err(Stop::Asked(question)) => self.answer(&mut disk, question),
            }
        }
    }
}

#[test]
fn discovers_manifest_and_recursive_path_dependencies() {
    let mut files = Files::new();
    files.write(
        "/root/Simplex.toml",
        "[build]\nsrc_dir = 'contracts'\n[dependencies]\nmerkle = { path = 'vendor/merkle' }\n",
    );
    files.write("/root/contracts/main.simf", "fn main() {}\n");
    files.write(
        "/root/vendor/merkle/Simplex.toml",
        "[dependencies]\nmath = { path = '../math' }\n",
    );
    files.write(
        "/root/vendor/merkle/simf/root.simf",
        "use math::ops::add;\npub fn root() { add(); }\n",
    );
    files.write("/root/vendor/math/Simplex.toml", "");
    files.write("/root/vendor/math/simf/ops.simf", "pub fn add() {}\n");

    let context = files
        .discover(
            "/root/contracts/main.simf",
            &ProjectSettings::default(),
            &["/root"],
        )
        .unwrap();

    assert_eq!(context.source_root, "/root/contracts");
    assert_eq!(context.dependencies.len(), 2);
    assert_eq!(
        context.import_root("/root/contracts/main.simf", "merkle"),
        Some("/root/vendor/merkle/simf")
    );
    assert_eq!(
        context.import_root("/root/vendor/merkle/simf/root.simf", "math"),
        Some("/root/vendor/math/simf")
    );
    assert_eq!(
        context.dependency_aliases("/root/contracts/main.simf"),
        vec!["merkle"]
    );
    assert_eq!(
        context.dependency_aliases("/root/vendor/merkle/simf/root.simf"),
        vec!["math"]
    );
}

#[test]
fn resolves_simplex_git_install_directory_exactly() {
    let url = "https://github.com/BlockstreamResearch/simplicityhl-std";
    let installed = hashed_repository_path(url, None).unwrap();
    assert_eq!(installed, "simplicityhl-std-8bc347cc4ed271da");
    let mut files = Files::new();
    files.write(
        "/root/Simplex.toml",
        &format!("[dependencies]\nstd = {{ git = '{url}' }}\n"),
    );
    files.write("/root/simf/main.simf", "fn main() {}\n");
    files.write(&format!("/root/deps/{installed}/Simplex.toml"), "");
    files.write(
        &format!("/root/deps/{installed}/simf/lib.simf"),
        "pub fn helper() {}\n",
    );

    let context = files
        .discover(
            "/root/simf/main.simf",
            &ProjectSettings::default(),
            &["/root"],
        )
        .unwrap();

    assert_eq!(
        context.import_root("/root/simf/main.simf", "std"),
        Some(format!("/root/deps/{installed}/simf").as_str())
    );
}

#[test]
fn resolves_simplex_git_install_directories_for_revision_and_tag() {
    for (field, reference, expected_directory) in [
        ("rev", "deadbeef", "simplicityhl-std-c7c631fb6d854c6d"),
        ("tag", "v1.2.3", "simplicityhl-std-38569687e465cad1"),
    ] {
        let url = "https://github.com/BlockstreamResearch/simplicityhl-std";
        let installed = hashed_repository_path(url, Some(reference)).unwrap();
        assert_eq!(installed, expected_directory);
        let mut files = Files::new();
        files.write(
            "/root/Simplex.toml",
            &format!("[dependencies]\nstd = {{ git = '{url}', {field} = '{reference}' }}\n"),
        );
        files.write("/root/simf/main.simf", "fn main() {}\n");
        files.write(&format!("/root/deps/{installed}/Simplex.toml"), "");
        files.write(
            &format!("/root/deps/{installed}/simf/lib.simf"),
            "pub fn helper() {}\n",
        );

        let context = files
            .discover(
                "/root/simf/main.simf",
                &ProjectSettings::default(),
                &["/root"],
            )
            .unwrap();

        assert_eq!(
            context.import_root("/root/simf/main.simf", "std"),
            Some(format!("/root/deps/{installed}/simf").as_str())
        );
    }
}

#[test]
fn rejects_conflicting_simplex_git_references() {
    let mut files = Files::new();
    files.write(
        "/root/Simplex.toml",
        "[dependencies]\nstd = { git = 'https://example.com/std', rev = 'deadbeef', tag = 'v1' }\n",
    );
    files.write("/root/simf/main.simf", "fn main() {}\n");

    let error = files
        .discover(
            "/root/simf/main.simf",
            &ProjectSettings::default(),
            &["/root"],
        )
        .unwrap_err();

    assert!(matches!(error, ProjectError::InvalidDependency { .. }));
}

#[test]
fn rejects_git_references_on_path_dependencies() {
    let mut files = Files::new();
    files.write(
        "/root/Simplex.toml",
        "[dependencies]\nstd = { path = 'vendor/std', rev = 'deadbeef' }\n",
    );
    files.write("/root/simf/main.simf", "fn main() {}\n");

    let error = files
        .discover(
            "/root/simf/main.simf",
            &ProjectSettings::default(),
            &["/root"],
        )
        .unwrap_err();

    assert!(matches!(error, ProjectError::InvalidDependency { .. }));
}

#[test]
fn manual_mapping_overrides_manifest_mapping() {
    let mut files = Files::new();
    files.write(
        "/root/Simplex.toml",
        "[dependencies]\nmath = { path = 'old_math' }\n",
    );
    files.write("/root/simf/main.simf", "fn main() {}\n");
    files.write("/root/old_math/Simplex.toml", "");
    files.write("/root/old_math/simf/old.simf", "pub fn old() {}\n");
    files.write("/root/new_math/new.simf", "pub fn new() {}\n");

    let mut settings = ProjectSettings {
        simplex: SimplexSettings::default(),
        ..ProjectSettings::default()
    };
    settings.dependencies.insert(
        "math".to_string(),
        ManualDependency::Detailed(ManualDependencyDetails {
            path: "new_math".to_string(),
            context: "simf".to_string(),
        }),
    );

    let context = files
        .discover("/root/simf/main.simf", &settings, &["/root"])
        .unwrap();

    assert_eq!(
        context.import_root("/root/simf/main.simf", "math"),
        Some("/root/new_math")
    );
}

#[test]
fn package_roots_hold_all_sources_once() {
    let mut files = Files::new();
    files.write(
        "/root/Simplex.toml",
        "[dependencies]\nmath = { path = 'math' }\nsame = { path = 'math' }\n",
    );
    files.write("/root/simf/main.simf", "fn main() {}\n");
    files.write("/root/math/Simplex.toml", "");
    files.write("/root/math/simf/math.simf", "pub fn add() {}\n");
    files.write("/root/extra/extra.simf", "pub fn extra() {}\n");
    let mut settings = ProjectSettings::default();
    settings.dependencies.insert(
        "extra".to_string(),
        ManualDependency::Detailed(ManualDependencyDetails {
            path: "extra".to_string(),
            context: "simf".to_string(),
        }),
    );

    let context = files
        .discover("/root/simf/main.simf", &settings, &["/root"])
        .unwrap();

    assert_eq!(
        context.package_roots,
        vec!["/root/math/simf", "/root/extra", "/root/simf"]
    );
    assert_eq!(context.source_root, "/root/simf");
    assert_eq!(context.dependencies.len(), 3);
    for mapping in &context.dependencies {
        assert!(context.package_roots.contains(&mapping.target));
    }
}

#[test]
fn source_override_is_used_as_the_dependency_context() {
    let mut files = Files::new();
    files.write(
        "/root/Simplex.toml",
        "[dependencies]\nmath = { path = 'math' }\n",
    );
    files.write("/root/contracts/main.simf", "fn main() {}\n");
    files.write("/root/math/Simplex.toml", "");
    files.write("/root/math/simf/math.simf", "pub fn add() {}\n");
    let settings = ProjectSettings {
        source_directory: "contracts".to_string(),
        ..ProjectSettings::default()
    };

    let context = files
        .discover("/root/contracts/main.simf", &settings, &["/root"])
        .unwrap();

    assert_eq!(context.dependencies[0].context, "/root/contracts");
}

#[test]
fn reports_a_missing_explicit_manifest() {
    let mut files = Files::new();
    files.write("/root/simf/main.simf", "fn main() {}\n");
    let mut settings = ProjectSettings::default();
    settings.simplex.manifest_path = "missing.toml".to_string();

    let error = files
        .discover("/root/simf/main.simf", &settings, &["/root"])
        .unwrap_err();

    assert!(matches!(error, ProjectError::MissingConfiguredManifest(_)));
    assert_eq!(
        error.message(),
        "Configured Simplex manifest was not found at `/root/missing.toml`"
    );
}

#[test]
fn packages_that_depend_on_each_other_are_collected_once() {
    let mut files = Files::new();
    files.write(
        "/root/Simplex.toml",
        "[dependencies]\na = { path = 'a' }\nb = { path = 'b' }\n",
    );
    files.write("/root/simf/main.simf", "");
    files.write("/root/a/Simplex.toml", "[dependencies]\nb = { path = '../b' }\n");
    files.write("/root/a/simf/x.simf", "");
    files.write("/root/b/simplex.toml", "[dependencies]\na = { path = '../a' }\n");
    files.write("/root/b/simf/y.simf", "");
    let context = files
        .discover("/root/simf/main.simf", &ProjectSettings::default(), &[])
        .unwrap();

    let mapping = |context: &str, alias: &str, target: &str| DependencyMapping {
        context: context.to_string(),
        alias: alias.to_string(),
        target: target.to_string(),
    };
    assert_eq!(
        context.dependencies,
        vec![
            mapping("/root/b/simf", "a", "/root/a/simf"),
            mapping("/root/a/simf", "b", "/root/b/simf"),
            mapping("/root/simf", "a", "/root/a/simf"),
            mapping("/root/simf", "b", "/root/b/simf"),
        ]
    );
    assert_eq!(context.package_roots.last().unwrap(), "/root/simf");
    assert_eq!(
        context.package_root_for("/root/a/simf/x.simf"),
        "/root/a/simf"
    );
    assert_eq!(context.package_root_for("/elsewhere/z.simf"), "/root/simf");
}

#[test]
fn every_failure_names_what_is_wrong() {
    let failure = |manifest: &str| {
        let mut files = Files::new();
        files.write("/root/Simplex.toml", manifest);
        files.write("/root/simf/main.simf", "");
        files.write("/root/bare/simf/x.simf", "");
        files
            .discover("/root/simf/main.simf", &ProjectSettings::default(), &[])
            .unwrap_err()
    };
    assert!(matches!(failure("= broken"), ProjectError::Parse { .. }));
    assert_eq!(
        failure("[build]\nsrc_dir = 'none'\n").message(),
        "Unable to resolve `/root/none`: No such file or directory"
    );
    assert_eq!(
        failure("[dependencies]\nbare = { path = 'bare' }\n").message(),
        "Dependency `bare` is missing a Simplex manifest in `/root/bare`"
    );
    assert_eq!(
        failure("[dependencies]\nbare = {}\n").message(),
        "Dependency `bare` in `/root/Simplex.toml` must set exactly one of `path` or `git`"
    );
    assert_eq!(
        failure("[dependencies]\nx = { git = 'https://example.com/' }\n").message(),
        "Invalid git dependency URL `https://example.com/`"
    );
    let expected = hashed_repository_path("https://example.com/x.git", None).unwrap();
    assert!(expected.starts_with("x-"));
    assert_eq!(
        failure("[dependencies]\nx = { git = 'https://example.com/x.git' }\n").message(),
        format!(
            "Git dependency `x` from `https://example.com/x.git` is not installed at `/root/deps/{expected}`"
        )
    );
    assert_eq!(
        ProjectError::Read {
            path: "/a".to_string(),
            source: "denied".to_string()
        }
        .message(),
        "Unable to read `/a`: denied"
    );
    assert_eq!(
        ProjectError::Compiler("reason".to_string()).message(),
        "Unable to build compiler dependency mappings: reason"
    );
}

#[test]
fn without_a_manifest_the_document_gives_the_source_root() {
    let mut files = Files::new();
    files.write("/work/nested/main.simf", "");
    let mut settings = ProjectSettings::default();
    settings.simplex.enabled = false;
    let context = files
        .discover("/work/nested/main.simf", &settings, &["/work"])
        .unwrap();
    assert_eq!(context.source_root, "/work/nested");
    assert!(context.dependencies.is_empty());
    assert_eq!(context.package_roots, vec!["/work/nested"]);

    // A document that is not saved yet belongs to the nearest directory that exists.
    let context = files
        .discover("/work/new/deep/main.simf", &settings, &["/work"])
        .unwrap();
    assert_eq!(context.source_root, "/work");
}

#[test]
fn the_most_specific_mapping_of_an_alias_counts() {
    let mut files = Files::new();
    files.write("/root/Simplex.toml", "[dependencies]\nmath = { path = 'math' }\n");
    files.write("/root/simf/lib/inner.simf", "");
    files.write("/root/math/Simplex.toml", "");
    files.write("/root/math/simf/x.simf", "");
    files.write("/root/other/x.simf", "");
    let mut settings = ProjectSettings::default();
    settings.dependencies.insert(
        "math".to_string(),
        ManualDependency::Detailed(ManualDependencyDetails {
            path: "/root/other".to_string(),
            context: "simf/lib".to_string(),
        }),
    );
    let context = files
        .discover("/root/simf/lib/inner.simf", &settings, &["/root"])
        .unwrap();
    assert_eq!(
        context.import_root("/root/simf/lib/inner.simf", "math"),
        Some("/root/other")
    );
    assert_eq!(
        context.import_root("/root/simf/main.simf", "math"),
        Some("/root/math/simf")
    );
    assert_eq!(
        context.dependency_aliases("/root/simf/lib/inner.simf"),
        vec!["math"]
    );
    assert_eq!(
        context.import_root("/root/simf/main.simf", "crate"),
        Some("/root/simf")
    );
    assert_eq!(context.import_root("/root/simf/main.simf", "std"), None);
}

#[test]
fn a_manifest_is_looked_for_upwards() {
    let mut files = Files::new();
    files.write("/a/simplex.toml", "");
    files.write("/a/b/c/main.simf", "");
    let mut disk = Disk::new();
    let found = loop {
        match find_manifest("/a/b/c/main.simf", &disk) {
            Ok(found) => break found,
            Err(Stop::Asked(question)) => files.answer(&mut disk, question),
            Err(Stop::Failed(error)) => panic!("{}", error.message()),
        }
    };
    assert_eq!(found.as_deref(), Some("/a/simplex.toml"));
}

#[test]
fn a_search_asks_nothing_twice() {
    let mut files = Files::new();
    files.write("/root/Simplex.toml", "");
    files.write("/root/simf/main.simf", "");
    let settings = ProjectSettings::default();
    let mut disk = Disk::new();
    let mut asked: Vec<Question> = Vec::new();
    while let Err(Stop::Asked(question)) =
        ProjectContext::discover("/root/simf/main.simf", &settings, &Vec::new(), &disk)
    {
        assert!(!asked.contains(&question));
        let again = match &question {
            Question::Canonical(path) => Question::Canonical(path.clone()),
            Question::IsFile(path) => Question::IsFile(path.clone()),
            Question::IsDirectory(path) => Question::IsDirectory(path.clone()),
            Question::Manifest(path) => Question::Manifest(path.clone()),
            Question::Source(path) => Question::Source(path.clone()),
            Question::Entries(path) => Question::Entries(path.clone()),
        };
        files.answer(&mut disk, question);
        asked.push(again);
    }
    assert_eq!(asked.len(), 7);

    // What else becomes known changes nothing.
    disk.files.insert("/root/simf/Simplex.toml.bak".to_string(), true);
    assert!(
        ProjectContext::discover("/root/simf/main.simf", &settings, &Vec::new(), &disk).is_ok()
    );
}

#[test]
fn paths_are_read_by_their_components() {
    assert!(is_absolute("/a") && !is_absolute("a"));
    assert_eq!(join("/a", "b"), "/a/b");
    assert_eq!(join("/a/", "b"), "/a/b");
    assert_eq!(join("/a", "/b"), "/b");
    assert_eq!(join("", "b"), "b");
    assert_eq!(parent("/a/b").as_deref(), Some("/a"));
    assert_eq!(parent("/a/./b/").as_deref(), Some("/a"));
    assert_eq!(parent("/a").as_deref(), Some("/"));
    assert_eq!(parent("a").as_deref(), Some(""));
    assert_eq!(parent("/"), None);
    assert_eq!(parent(""), None);
    assert!(starts_with("/a/b/c", "/a/b"));
    assert!(starts_with("/a//b/./c", "/a/b/"));
    assert!(!starts_with("/a/bc", "/a/b"));
    assert!(!starts_with("a/b", "/a"));
    assert!(starts_with("/a", ""));
    assert!(!starts_with("./a", "a"));
    assert_eq!(file_name("/a/b.simf").as_deref(), Some("b.simf"));
    assert_eq!(file_name("/a/.."), None);
    assert_eq!(extension("/a/b.tar.gz").as_deref(), Some("gz"));
    assert_eq!(extension("/a/.hidden"), None);
    assert_eq!(file_stem("/a/b.simf").as_deref(), Some("b"));
    assert_eq!(file_stem("/a/.hidden").as_deref(), Some(".hidden"));
}

#[test]
fn a_dependency_that_is_not_there_adds_nothing() {
    let mut files = Files::new();
    files.write("/root/Simplex.toml", "");
    files.write("/root/simf/main.simf", "");
    let mut settings = ProjectSettings::default();
    settings.dependencies.insert(
        "gone".to_string(),
        ManualDependency::Path("nowhere".to_string()),
    );
    match files.discover("/root/simf/main.simf", &settings, &["/root"]) {
        Err(ProjectError::Canonicalize { path, .. }) => assert_eq!(path, "/root/nowhere"),
        other => panic!("unexpected {other:?}"),
    }
    assert!(files
        .discover("/root/simf/main.simf", &ProjectSettings::default(), &["/root"])
        .expect("project")
        .dependencies
        .is_empty());
}
