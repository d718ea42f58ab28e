use std::io::Write;
use std::path::{Path, PathBuf};
use std::sync::Arc;

use simplicityhl::ast::ElementsJetHinter;
use simplicityhl::driver::SourceMap;
use simplicityhl::error::DiagnosticManager;
use simplicityhl::parse::{Item as CompilerItem, ParseFromStrWithErrors, Program};
use simplicityhl::resolution::{DependencyMap, DependencyMapBuilder};
use simplicityhl::source::{CanonPath, CanonSourceFile};
use simplicityhl::{TemplateAst, UnstableFeature as CompilerFeature, UnstableFeatures};
use tempfile::{Builder, NamedTempFile, TempDir};

use simplicityhl_lsp::analysis::entry_point::{ImportGraph, ImportLink};
use simplicityhl_lsp::analysis::sources::CompilerSource;
use simplicityhl_lsp::analysis::{AnalysisSnapshot, Compilation};
use simplicityhl_lsp::compiler::{read_diagnostic, read_program, UnstableFeature};
use simplicityhl_lsp::config::ProjectSettings;
use simplicityhl_lsp::project::disk::{
    DependencyConfig, Disk, ManifestFailure, Question, SimplexConfig, Stop,
};
use simplicityhl_lsp::project::ProjectContext;
use simplicityhl_lsp::protocol::{Diagnostic, Location, Position, Range, Severity};
use simplicityhl_lsp::report::{
    CompilerDiagnostic, ErrorKind, Label as SecondaryLabel, Place,
};
use simplicityhl_lsp::text::{offset_to_position, Span};
use simplicityhl_lsp::workspace::diagnostics::DiagnosticBundle;
use simplicityhl_lsp::workspace::publication::DiagnosticUpdate;
use simplicityhl_lsp::workspace::WorkspaceState;

/// The files of a project in a directory of their own.
struct Package {
    files: Vec<(PathBuf, String, NamedTempFile)>,
    directories: Vec<TempDir>,
    root: TempDir,
}

impl Package {
    fn new() -> Self {
        Self {
            files: Vec::new(),
            directories: Vec::new(),
            root: TempDir::new().expect("temp dir"),
        }
    }

    /// Makes the directories on the way to a path.
    fn enter(&mut self, path: &Path) {
        if path.is_dir() {
            return;
        }
        let parent = path.parent().expect("parent").to_path_buf();
        self.enter(&parent);
        let directory = Builder::new()
            .prefix(path.file_name().expect("name"))
            .rand_bytes(0)
            .tempdir_in(parent)
            .expect("directory");
        self.directories.insert(0, directory);
    }

    /// Writes a file, in `simf` where no directory is named, and gives its path.
    fn write(&mut self, name: &str, text: &str) -> PathBuf {
        let path = if name.contains('/') || name.ends_with(".toml") {
            self.root.path().join(name)
        } else {
            self.root.path().join("simf").join(name)
        };
        let parent = path.parent().expect("parent").to_path_buf();
        self.enter(&parent);
        let mut file = Builder::new()
            .prefix(path.file_name().expect("name"))
            .rand_bytes(0)
            .tempfile_in(parent)
            .expect("file");
        file.write_all(text.as_bytes()).expect("write file");
        file.flush().expect("write file");
        let path = path.canonicalize().expect("canonical path");
        self.files.push((path.clone(), text.to_string(), file));
        path
    }

    /// Takes a directory away with all that it holds.
    fn remove(&mut self, name: &str) {
        let path = self.root.path().join(name);
        self.files.retain(|(file, _, _)| !file.starts_with(&path));
        self.directories
            .retain(|directory| !directory.path().starts_with(&path));
    }

    fn manifest(&self, path: &str) -> Result<SimplexConfig, ManifestFailure> {
        let (_, text, _) = self
            .files
            .iter()
            .find(|(file, _, _)| file == Path::new(path))
            .ok_or_else(|| ManifestFailure::Read("unreadable".to_string()))?;
        let table = text
            .parse::<toml::Table>()
            .map_err(|error| ManifestFailure::Parse(error.to_string()))?;
        let mut config = SimplexConfig::default();
        if let Some(directory) = table.get("build").and_then(|build| build.get("src_dir")) {
            config.src_dir = directory.as_str().expect("a text").to_string();
        }
        if let Some(dependencies) = table.get("dependencies").and_then(toml::Value::as_table) {
            for (name, value) in dependencies {
                let path = value.get("path").and_then(toml::Value::as_str);
                config.dependencies.insert(
                    name.clone(),
                    DependencyConfig {
                        path: path.map(str::to_string),
                        git: None,
                        rev: None,
                        tag: None,
                    },
                );
            }
        }
        Ok(config)
    }

    fn answer(&self, disk: &mut Disk, question: Question) {
        match question {
            Question::Canonical(path) => {
                let answer = match Path::new(&path).canonicalize() {
                    Ok(canonical) => Ok(canonical.display().to_string()),
                    Err(error) => Err(error.to_string()),
                };
                disk.canonical.insert(path, answer);
            }
            Question::IsFile(path) => {
                let answer = Path::new(&path).is_file();
                disk.files.insert(path, answer);
            }
            Question::IsDirectory(path) => {
                let answer = Path::new(&path).is_dir();
                disk.directories.insert(path, answer);
            }
            Question::Manifest(path) => {
                let answer = self.manifest(&path);
                disk.manifests.insert(path, answer);
            }
            other => panic!("unexpected question {other:?}"),
        }
    }

    /// The project of a document, and where its imports lead.
    fn dependencies(&self, document: &Path) -> Result<DependencyMap, String> {
        let document = document.display().to_string();
        let root = self.root.path().canonicalize().expect("canonical root");
        let roots = vec![root.display().to_string()];
        let mut disk = Disk::new();
        let context = loop {
            match ProjectContext::discover(&document, &ProjectSettings::default(), &roots, &disk) {
                Ok(context) => break context,
                Err(Stop::Failed(error)) => return Err(error.message()),
                Err(Stop::Asked(question)) => self.answer(&mut disk, question),
            }
        };
        let canonical = |path: &str| CanonPath::canonicalize(Path::new(path));
        let mut builder = DependencyMapBuilder::new();
        for mapping in &context.dependencies {
            builder.add_dependency(
                canonical(&mapping.context)?,
                mapping.alias.clone(),
                canonical(&mapping.target)?,
            );
        }
        builder
            .build(canonical(context.package_root_for(&document))?)
            .map_err(|error| error.to_string())
    }

    /// Analyses a source of the package as it stands in an editor.
    fn analyze(&self, text: &str, path: &Path) -> AnalysisSnapshot {
        let features = vec![UnstableFeature::Imports];
        let outcome = self.compile(text, path, &features);
        AnalysisSnapshot::analyze(text, uri_of(path), &features, &outcome)
    }

    fn compile(&self, text: &str, path: &Path, features: &Vec<UnstableFeature>) -> Compilation {
        let Some(input) = AnalysisSnapshot::compiler_input(text, features) else {
            return Compilation::Unavailable("not parsed".to_string());
        };
        let dependencies = match self.dependencies(path) {
            Ok(dependencies) => dependencies,
            Err(message) => return Compilation::Unavailable(message),
        };
        let result = TemplateAst::new_with_dep(
            CanonSourceFile::new(
                CanonPath::canonicalize(path).expect("canonical path"),
                Arc::from(input),
            ),
            &dependencies,
            &UnstableFeatures::new(vec![CompilerFeature::Imports]),
            Box::new(ElementsJetHinter::new()),
        );
        match result {
            Ok(template) => Compilation::Resolved {
                program: read_program(template.resolved_program()),
                sources: template.source_map().map(sources_of),
                diagnostics: reports(template.diagnostics()),
            },
            Err(manager) => Compilation::Failed {
                graph: manager.sources().map(|sources| ImportGraph {
                    sources: sources_of(sources),
                    links: links_of(sources, &dependencies),
                    features: features.clone(),
                }),
                diagnostics: reports(&manager),
            },
        }
    }
}

fn reports(manager: &DiagnosticManager) -> Vec<CompilerDiagnostic> {
    manager.diagnostics().iter().map(read_diagnostic).collect()
}

fn sources_of(sources: &SourceMap) -> Vec<CompilerSource> {
    sources
        .iter()
        .map(|(path, file_id)| CompilerSource {
            file_id: *file_id,
            uri: uri_of(path.as_path()),
            content: sources.content(*file_id).expect("source").to_string(),
        })
        .collect()
}

fn links_of(sources: &SourceMap, dependencies: &DependencyMap) -> Vec<ImportLink> {
    let mut links = Vec::new();
    for (path, file_id) in sources.iter() {
        let program = Program::parse_from_str_with_errors(
            *file_id,
            &sources.content(*file_id).expect("source"),
            &UnstableFeatures::new(vec![CompilerFeature::Imports]),
            &mut DiagnosticManager::new(),
        );
        if let Some(program) = program {
            collect_links(program.items(), *file_id, path, sources, dependencies, &mut links);
        }
    }
    links
}

fn collect_links(
    items: &[CompilerItem],
    file_id: usize,
    path: &CanonPath,
    sources: &SourceMap,
    dependencies: &DependencyMap,
    links: &mut Vec<ImportLink>,
) {
    for item in items {
        match item {
            CompilerItem::Use(declaration) => {
                let target = dependencies
                    .resolve_path(path, declaration)
                    .ok()
                    .and_then(|target| sources.id(&target));
                if let Some(target) = target {
                    let span = declaration.span();
                    links.push(ImportLink {
                        file_id,
                        span: Span::new(span.file_id, span.start, span.end),
                        target,
                    });
                }
            }
            CompilerItem::Module(module) => {
                collect_links(module.items(), file_id, path, sources, dependencies, links);
            }
            _ => {}
        }
    }
}

fn uri_of(path: &Path) -> String {
    format!("file://{}", path.display())
}

fn update_for<'a>(updates: &'a [DiagnosticUpdate], uri: &str) -> &'a DiagnosticUpdate {
    updates
        .iter()
        .find(|update| update.uri == uri)
        .expect("URI should be republished")
}

fn insert_analysis(
    state: &mut WorkspaceState,
    package: &Package,
    source: &str,
    path: &Path,
) -> String {
    let uri = uri_of(path);
    state.replace_inner(&uri, package.analyze(source, path), Some(1));
    uri
}

/// The places that refer to the function that a name means in a document.
fn references_to(state: &WorkspaceState, uri: &str, name: &str) -> Vec<Location> {
    let snapshot = state.get(uri).expect("analysis");
    let function = snapshot.functions.get_func(name).expect("function");
    let target = snapshot.function_identity(function).expect("identity");
    state.find_references_to(&target)
}

#[test]
fn references_exclude_unrelated_same_named_functions() {
    let mut package = Package::new();
    package.write("Simplex.toml", "");
    let source = "fn helper() {}\nfn main() { helper(); }\n";
    let first_path = package.write("first.simf", source);
    let second_path = package.write("second.simf", source);

    let mut state = WorkspaceState::new();
    let first_uri = insert_analysis(&mut state, &package, source, &first_path);
    let second_uri = insert_analysis(&mut state, &package, source, &second_path);

    let references = references_to(&state, &first_uri, "helper");
    assert_eq!(references.len(), 1);
    assert_eq!(references[0].uri, first_uri);
    assert_ne!(references[0].uri, second_uri);
}

#[test]
fn references_follow_aliases_to_one_definition_across_roots() {
    let mut package = Package::new();
    package.write("Simplex.toml", "");
    package.write("shared.simf", "pub fn target() {}\n");
    let first_source = "use crate::shared::target as alpha;\nfn main() { alpha(); }\n";
    let second_source = "use crate::shared::target as beta;\nfn main() { beta(); }\n";
    let first_path = package.write("first.simf", first_source);
    let second_path = package.write("second.simf", second_source);

    let mut state = WorkspaceState::new();
    let first_uri = insert_analysis(&mut state, &package, first_source, &first_path);
    let second_uri = insert_analysis(&mut state, &package, second_source, &second_path);

    let references = references_to(&state, &first_uri, "alpha");
    assert_eq!(references.len(), 2);
    assert_eq!(references[0].uri, first_uri);
    assert_eq!(references[1].uri, second_uri);
}

#[test]
fn references_deduplicate_shared_dependency_locations() {
    let mut package = Package::new();
    package.write("Simplex.toml", "");
    let shared_path = package.write(
        "shared.simf",
        "pub fn target() {}\npub fn invoke() { target(); }\n",
    );
    let source = "use crate::shared::{target, invoke};\nfn main() { target(); invoke(); }\n";
    let first_path = package.write("first.simf", source);
    let second_path = package.write("second.simf", source);

    let mut state = WorkspaceState::new();
    let first_uri = insert_analysis(&mut state, &package, source, &first_path);
    let second_uri = insert_analysis(&mut state, &package, source, &second_path);
    let shared_uri = uri_of(&shared_path);

    let references = references_to(&state, &first_uri, "target");
    assert_eq!(references.len(), 3);
    assert_eq!(
        references
            .iter()
            .filter(|location| location.uri == shared_uri)
            .count(),
        1
    );
    assert!(references.iter().any(|location| location.uri == first_uri));
    assert!(references.iter().any(|location| location.uri == second_uri));
}

#[test]
fn dependency_references_use_the_owning_module_scope() {
    let mut package = Package::new();
    package.write("Simplex.toml", "");
    package.write("a.simf", "pub fn target() {}\n");
    let second_dependency = package.write(
        "b.simf",
        "pub fn target() {}\npub fn wrapper() { target(); }\n",
    );
    let source =
        "use crate::a::target;\nuse crate::b::wrapper;\nfn main() { target(); wrapper(); }\n";
    let root_path = package.write("main.simf", source);

    let mut state = WorkspaceState::new();
    let root_uri = insert_analysis(&mut state, &package, source, &root_path);
    let second_dependency_uri = uri_of(&second_dependency);

    let references = references_to(&state, &root_uri, "target");
    assert_eq!(references.len(), 1);
    assert_eq!(references[0].uri, root_uri);
    assert!(!references
        .iter()
        .any(|location| location.uri == second_dependency_uri));
}

#[test]
fn references_and_definition_are_found_at_a_position() {
    let mut package = Package::new();
    package.write("Simplex.toml", "");
    let shared = package.write("shared.simf", "pub fn target() {}\n");
    let source = "use crate::shared::target;\nfn main() { target(); }\n";
    let path = package.write("main.simf", source);
    let mut state = WorkspaceState::new();
    let uri = insert_analysis(&mut state, &package, source, &path);
    let offset = source.rfind("target").unwrap() + 1;
    let position = offset_to_position(offset, &state.get(&uri).unwrap().text).unwrap();

    let definition = state
        .definition(&uri, position)
        .unwrap()
        .expect("definition");
    assert_eq!(definition.uri, uri_of(&shared));
    assert_eq!(
        definition.range,
        Range::new(Position::new(0, 0), Position::new(0, 18))
    );
    let references = state
        .references(&uri, position)
        .unwrap()
        .expect("references");
    assert_eq!(references.len(), 1);
    assert_eq!(
        references[0].range,
        Range::new(Position::new(1, 12), Position::new(1, 18))
    );
}

#[test]
fn close_generation_rejects_an_in_flight_analysis() {
    let mut package = Package::new();
    package.write("Simplex.toml", "");
    let source = "fn main() {}\n";
    let path = package.write("main.simf", source);
    let uri = uri_of(&path);
    let mut state = WorkspaceState::new();

    let analysis_input = state.begin_open(&uri, source, Some(1));
    let snapshot = package.analyze(source, &path);
    let close_generation = state.begin_close(&uri).expect("close ticket");

    assert!(state
        .replace_if_current(&uri, snapshot, Some(1), analysis_input.generation)
        .is_none());
    assert!(state.remove_if_current(&uri, close_generation).is_some());
    assert!(state.get(&uri).is_none());
}

#[test]
fn newer_generation_wins_when_document_versions_are_equal() {
    let mut package = Package::new();
    package.write("Simplex.toml", "");
    let old_source = "fn old() {}\nfn main() {}\n";
    let new_source = "fn new() {}\nfn main() {}\n";
    let path = package.write("main.simf", new_source);
    let uri = uri_of(&path);
    let mut state = WorkspaceState::new();

    let old_input = state.begin_open(&uri, old_source, Some(1));
    let old_snapshot = package.analyze(old_source, &path);
    let new_input = state
        .begin_change(&uri, new_source, Some(1))
        .expect("open document");
    let new_snapshot = package.analyze(new_source, &path);

    assert!(state
        .replace_if_current(&uri, new_snapshot, Some(1), new_input.generation)
        .is_some());
    assert!(state
        .replace_if_current(&uri, old_snapshot, Some(1), old_input.generation)
        .is_none());
    assert_eq!(
        state.get(&uri).expect("current analysis").text.to_string(),
        new_source
    );
}

#[test]
fn older_change_is_rejected_before_analysis() {
    let uri = "file:///tmp/change-order.simf";
    let mut state = WorkspaceState::new();
    state.begin_open(uri, "fn initial() {}\n", Some(1));
    state
        .begin_change(uri, "fn newest() {}\n", Some(3))
        .expect("newer change");

    assert!(state
        .begin_change(uri, "fn stale() {}\n", Some(2))
        .is_none());
    let current = state.begin_reanalysis().pop().expect("current document");
    assert_eq!(current.text, "fn newest() {}\n");
    assert_eq!(current.version, Some(3));
}

#[test]
fn reanalysis_includes_documents_with_pending_initial_analysis() {
    let source = "fn main() {}\n";
    let uri = "file:///tmp/simf/main.simf";
    let mut state = WorkspaceState::new();

    let initial_input = state.begin_open(uri, source, Some(1));
    assert!(state.get(uri).is_none());

    let requests = state.begin_reanalysis();
    assert_eq!(requests.len(), 1);
    let request = &requests[0];
    assert_eq!(request.uri, uri);
    assert_eq!(request.text, source);
    assert_eq!(request.version, Some(1));
    assert_ne!(request.generation, initial_input.generation);
}

#[test]
fn pre_close_reanalysis_cannot_overwrite_a_reopened_document() {
    let mut package = Package::new();
    package.write("Simplex.toml", "");
    let old_source = "fn old() {}\nfn main() {}\n";
    let new_source = "fn new() {}\nfn main() {}\n";
    let path = package.write("main.simf", new_source);
    let uri = uri_of(&path);
    let mut state = WorkspaceState::new();

    let old_input = state.begin_open(&uri, old_source, Some(5));
    state
        .replace_if_current(
            &uri,
            package.analyze(old_source, &path),
            old_input.version,
            old_input.generation,
        )
        .expect("initial analysis");
    let stale_request = state.begin_reanalysis().pop().expect("reanalysis request");
    let close_generation = state.begin_close(&uri).expect("close ticket");
    let reopened_input = state.begin_open(&uri, new_source, Some(1));

    assert!(state.remove_if_current(&uri, close_generation).is_none());
    assert!(state
        .replace_if_current(
            &uri,
            package.analyze(old_source, &path),
            stale_request.version,
            stale_request.generation,
        )
        .is_none());
    assert!(state
        .replace_if_current(
            &uri,
            package.analyze(new_source, &path),
            Some(1),
            reopened_input.generation,
        )
        .is_some());
    assert_eq!(
        state.get(&uri).expect("reopened analysis").text.to_string(),
        new_source
    );
    assert_eq!(
        state.get(&uri).expect("reopened analysis").version,
        Some(1)
    );
}

#[test]
fn save_ticket_keeps_the_last_known_version() {
    let uri = "file:///tmp/save-ticket.simf";
    let mut state = WorkspaceState::new();
    state.begin_open(uri, "fn main() {}\n", Some(7));

    let save = state
        .begin_change(uri, "fn main() {}\n", None)
        .expect("save ticket");

    assert_eq!(save.version, Some(7));
}

#[test]
fn closing_document_releases_its_buffer_payload() {
    let uri = "file:///tmp/closed-buffer.simf";
    let mut state = WorkspaceState::new();
    state.begin_open(uri, "fn main() {}\n", Some(3));

    state.begin_close(uri).expect("close ticket");

    let document = state.documents.get(uri).expect("generation tombstone");
    assert!(!document.open);
    assert!(document.text.is_none());
    assert_eq!(document.version, None);
    assert!(state.begin_close(uri).is_none());

    let unknown = "file:///tmp/unknown-close.simf";
    assert!(state.begin_close(unknown).is_none());
    assert!(state.documents.get(unknown).is_none());
}

#[test]
fn shared_dependencies_deduplicate_and_open_buffers_take_precedence() {
    let mut package = Package::new();
    package.write("Simplex.toml", "");
    let dependency_path = package.write("shared.simf", "pub fn broken() -> u32 { false }\n");
    let root_source = "use crate::shared::broken;\nfn main() { broken(); }\n";
    let root_a = package.write("a.simf", root_source);
    let root_b = package.write("b.simf", root_source);

    let dependency_uri = uri_of(&dependency_path);
    let first_root_uri = uri_of(&root_a);
    let second_root_uri = uri_of(&root_b);
    let mut state = WorkspaceState::new();

    let updates = state.replace_inner(
        &first_root_uri,
        package.analyze(root_source, &root_a),
        Some(1),
    );
    assert_eq!(update_for(&updates, &first_root_uri).version, Some(1));
    let imported = update_for(&updates, &dependency_uri);
    assert_eq!(imported.version, None);
    assert_eq!(imported.diagnostics.len(), 1);

    let updates = state.replace_inner(
        &second_root_uri,
        package.analyze(root_source, &root_b),
        Some(1),
    );
    assert_eq!(update_for(&updates, &dependency_uri).diagnostics.len(), 1);

    let clean_dependency = "pub fn broken() -> u32 { 0 }\n";
    let updates = state.replace_inner(
        &dependency_uri,
        package.analyze(clean_dependency, &dependency_path),
        Some(7),
    );
    let direct = update_for(&updates, &dependency_uri);
    assert!(direct.diagnostics.is_empty());
    assert_eq!(direct.version, Some(7));

    let updates = state.remove(&dependency_uri);
    let restored = update_for(&updates, &dependency_uri);
    assert_eq!(restored.version, None);
    assert_eq!(restored.diagnostics.len(), 1);
}

#[test]
fn replacing_roots_clears_removed_dependency_diagnostics() {
    let mut package = Package::new();
    package.write("Simplex.toml", "");
    let dependency_path = package.write("shared.simf", "pub fn broken() -> u32 { false }\n");
    let importing = "use crate::shared::broken;\nfn main() { broken(); }\n";
    let root_path = package.write("main.simf", importing);

    let root_uri = uri_of(&root_path);
    let dependency_uri = uri_of(&dependency_path);
    let mut state = WorkspaceState::new();
    let initial = state.begin_open(&root_uri, importing, Some(1));
    state
        .replace_if_current(
            &root_uri,
            package.analyze(importing, &root_path),
            initial.version,
            initial.generation,
        )
        .expect("initial analysis");

    let clean = "fn main() {}\n";
    let stale_ticket = state
        .begin_change(&root_uri, importing, Some(2))
        .expect("stale ticket");
    let current = state
        .begin_change(&root_uri, clean, Some(3))
        .expect("current ticket");
    let updates = state
        .replace_if_current(
            &root_uri,
            package.analyze(clean, &root_path),
            current.version,
            current.generation,
        )
        .expect("newer analysis");
    assert!(update_for(&updates, &dependency_uri).diagnostics.is_empty());

    let stale_result = state.replace_if_current(
        &root_uri,
        package.analyze(importing, &root_path),
        stale_ticket.version,
        stale_ticket.generation,
    );
    assert!(stale_result.is_none());
}

#[test]
fn cross_file_secondary_labels_notes_and_help_are_preserved() {
    let mut package = Package::new();
    package.write("Simplex.toml", "");
    package.write("library.simf", "pub fn helper() {}\n");
    let source = "use crate::library::helper;\nfn main() { helper(); }\n";
    let root_path = package.write("main.simf", source);
    let mut snapshot = package.analyze(source, &root_path);
    let imported_file_id = snapshot
        .functions
        .get_func("helper")
        .expect("imported function")
        .span
        .file_id;
    assert_ne!(imported_file_id, 0);
    snapshot.compiler_diagnostics = vec![CompilerDiagnostic {
        kind: ErrorKind::CannotParse("primary".to_string()),
        message: "primary".to_string(),
        severity: Severity::Error,
        place: Place::Code(Span::new(0, 0, 3)),
        secondary: vec![SecondaryLabel {
            span: Span::new(imported_file_id, 7, 13),
            message: "secondary".to_string(),
        }],
        notes: vec!["context".to_string()],
        help: Some("fix it".to_string()),
    }];
    let bundle = DiagnosticBundle::from_snapshot(&snapshot);
    let published = bundle.get(&uri_of(&root_path)).unwrap()[0];

    assert_eq!(
        published.range,
        Range::new(Position::new(0, 0), Position::new(0, 3))
    );
    assert!(published.message.contains("Note: context"));
    assert!(published.message.contains("Help: fix it"));
    let related = &published.related_information;
    assert_eq!(related.len(), 1);
    assert_eq!(related[0].message, "secondary");
    assert_eq!(
        related[0].location.uri,
        snapshot.sources.get(imported_file_id).unwrap().uri
    );
    assert_eq!(
        related[0].location.range,
        Range::new(Position::new(0, 7), Position::new(0, 13))
    );
}

fn duplicate_main() {
    let mut package = Package::new();
    package.write("Simplex.toml", "");
    package.write("library.simf", "pub fn helper() {}\nfn main() {}\n");
    let import = "use crate::library::helper;";
    let source = format!("{import}\nfn main() {{}}\n");
    let path = package.write("main.simf", &source);
    let snapshot = package.analyze(&source, &path);
    let report = snapshot
        .compiler_diagnostics
        .iter()
        .find(|report| {
            matches!(&report.kind, ErrorKind::FunctionRedefined(name) if name == "main")
        })
        .expect("duplicate main diagnostic");
    let Place::Code(span) = report.place else {
        panic!("duplicate main should point to source code");
    };
    assert_eq!(span.file_id, 0);
    assert_eq!(&source[span.start..span.end], import);
}

#[test]
fn backend_duplicate_imported_main_points_to_the_import() {
    duplicate_main();
}

#[test]
fn tests_duplicate_imported_main_points_to_the_import() {
    duplicate_main();
}

fn re_exports() {
    let mut package = Package::new();
    package.write(
        "Simplex.toml",
        "[dependencies]\nmerkle = { path = 'deps/merkle' }\nfacade = { path = 'deps/facade' }\n",
    );
    package.write("deps/merkle/Simplex.toml", "");
    let merkle_path = package.write(
        "deps/merkle/simf/build_root.simf",
        "pub mod wrapper {\n    pub fn get_root() {}\n    pub fn hash() {}\n}\npub use crate::wrapper::{get_root, hash};\n",
    );
    package.write(
        "deps/facade/Simplex.toml",
        "[dependencies]\nleaf = { path = '../leaf' }\n",
    );
    package.write(
        "deps/facade/simf/smth.simf",
        "pub use leaf::ops::hash;\n",
    );
    package.write("deps/leaf/Simplex.toml", "");
    let leaf_path = package.write("deps/leaf/simf/ops.simf", "pub fn hash() {}\n");

    let source = "use merkle::build_root::{get_root, hash as and_hash};\nuse facade::smth::hash as or_hash;\nfn main() { get_root(); and_hash(); or_hash(); }\n";
    let path = package.write("main.simf", source);
    let document = package.analyze(source, &path);
    assert!(
        document.compiler_diagnostics.is_empty(),
        "unexpected errors: {:?}",
        document.compiler_diagnostics
    );

    let cases = [
        (source.find("get_root"), "get_root", &merkle_path),
        (source.find("and_hash"), "hash", &merkle_path),
        (source.rfind("hash as"), "hash", &leaf_path),
        (source.find("or_hash"), "hash", &leaf_path),
    ];
    for (offset, name, path) in cases {
        let offset = offset.expect("import") + 1;
        let function = document
            .find_imported_function(Span::new(0, offset, offset))
            .expect("imported function");
        assert_eq!(function.name, name);
        assert_eq!(
            document.sources.get(function.span.file_id).unwrap().uri,
            uri_of(path)
        );
    }
}

#[test]
fn backend_nested_and_transitive_reexports_resolve_to_original_definitions() {
    re_exports();
}

#[test]
fn tests_nested_and_transitive_reexports_resolve_to_original_definitions() {
    re_exports();
}

fn manifest_dependency() {
    let mut package = Package::new();
    package.write(
        "Simplex.toml",
        "[build]\nsrc_dir = 'contracts'\n[dependencies]\nmath = { path = 'vendor/math' }\n",
    );
    package.write("vendor/math/Simplex.toml", "");
    package.write(
        "vendor/math/simf/ops.simf",
        "pub fn double(a: u32) -> u32 { let (_, n): (bool, u32) = jet::add_32(a, a); n }\n",
    );
    let source = "use math::ops::double;\nfn main() { let _: u32 = double(2); }\n";
    let path = package.write("contracts/main.simf", source);

    let snapshot = package.analyze(source, &path);
    assert!(
        snapshot.compiler_diagnostics.is_empty(),
        "unexpected diagnostics: {:?}",
        snapshot.compiler_diagnostics
    );
    assert!(snapshot.functions.get_func("double").is_some());
}

#[test]
fn manifest_dependency_and_custom_source_directory_are_resolved() {
    manifest_dependency();
}

#[test]
fn backend_parse_program_resolves_a_manifest_dependency() {
    manifest_dependency();
}

#[test]
fn tests_parse_program_resolves_a_manifest_dependency() {
    manifest_dependency();
}

#[test]
fn transiently_missing_dependency_source_is_a_root_diagnostic() {
    let mut package = Package::new();
    package.write(
        "Simplex.toml",
        "[dependencies]\nlibrary = { path = 'vendor/library' }\n",
    );
    package.write("vendor/library/Simplex.toml", "");
    package.write("vendor/library/simf/ops.simf", "pub fn verify() {}\n");
    let source = "use library::ops::verify;\nfn main() { verify(); }\n";
    let path = package.write("simf/main.simf", source);

    let initial = package.analyze(source, &path);
    assert!(initial.compiler_diagnostics.is_empty());
    let dependency_source = package
        .root
        .path()
        .canonicalize()
        .expect("canonical root")
        .join("vendor/library/simf");
    package.remove("vendor/library/simf");
    let expected_path = dependency_source.display().to_string();

    let missing = package.analyze(source, &path);
    assert_eq!(missing.text.to_string(), source);
    assert_eq!(missing.sources.root_source().uri, uri_of(&path));
    assert!(missing.compiler_diagnostics.iter().any(|report| {
        matches!(&report.kind, ErrorKind::CannotParse(message) if message.contains(&expected_path))
    }));
}

fn imported_diagnostic() {
    let mut package = Package::new();
    package.write("Simplex.toml", "");
    let library_path =
        package.write("library.simf", "pub fn broken() -> (u1, u256) { 0 }\n");
    let source = "use crate::library::broken;\nfn main() { broken(); }\n";
    let root_path = package.write("main.simf", source);
    let snapshot = package.analyze(source, &root_path);
    assert!(snapshot.sources.len() > 1);
    let bundle = DiagnosticBundle::from_snapshot(&snapshot);

    let library = bundle
        .get(&uri_of(&library_path))
        .expect("library diagnostics");
    let imported = library
        .iter()
        .find(|diagnostic| diagnostic.message.contains("Expected expression"))
        .expect("imported diagnostic");
    assert_ne!(
        imported.range,
        Range::new(Position::new(0, 0), Position::new(0, 0))
    );
    assert!(!bundle
        .get(&uri_of(&root_path))
        .is_some_and(|diagnostics| diagnostics
            .iter()
            .any(|diagnostic| diagnostic.message == imported.message)));
}

#[test]
fn imported_diagnostic_is_owned_by_its_real_source() {
    imported_diagnostic();
}

#[test]
fn backend_imported_diagnostic_points_to_its_real_file() {
    imported_diagnostic();
}

#[test]
fn tests_imported_diagnostic_points_to_its_real_file() {
    imported_diagnostic();
}

fn diagnostic(message: &str) -> Diagnostic {
    Diagnostic {
        range: Range::new(Position::new(0, 0), Position::new(0, 1)),
        severity: Some(Severity::Error),
        source: None,
        message: message.to_string(),
        related_information: Vec::new(),
    }
}

#[test]
fn diagnostics_of_the_last_request_are_told() {
    let uri = "file:///tmp/values.wit";
    let mut state = WorkspaceState::new();
    let old = state.begin_open(uri, "{", Some(1));
    let new = state.begin_change(uri, "{}", Some(2)).expect("change");
    assert!(state
        .diagnostics_if_current(
            uri.to_string(),
            vec![diagnostic("old")],
            old.version,
            old.generation
        )
        .is_none());
    let updates = state
        .diagnostics_if_current(
            uri.to_string(),
            vec![diagnostic("new")],
            new.version,
            new.generation,
        )
        .expect("current request");
    assert_eq!(updates.len(), 1);
    assert_eq!(updates[0].uri, uri);
    assert_eq!(updates[0].version, Some(2));
    assert_eq!(updates[0].diagnostics[0].message, "new");
}

#[test]
fn a_request_for_one_document_leaves_the_others() {
    let mut state = WorkspaceState::new();
    let first = state.begin_open("file:///tmp/a.simf", "fn main() {}", Some(1));
    let second = state.begin_open("file:///tmp/b.simf", "fn main() {}", Some(4));
    assert!(second.generation > first.generation);
    state
        .begin_change("file:///tmp/b.simf", "", Some(5))
        .expect("change");

    let document = state.documents.get("file:///tmp/a.simf").expect("document");
    assert!(document.open);
    assert_eq!(document.version, Some(1));
    assert_eq!(document.generation, first.generation);
    assert!(state
        .begin_change("file:///tmp/c.simf", "", Some(1))
        .is_none());
}

fn grouped_items() {
    let mut package = Package::new();
    package.write("Simplex.toml", "");
    let dependency = uri_of(&package.write(
        "math.simf",
        "pub fn add() {}\npub fn subtract() {}\n",
    ));
    let source = "use crate::math::{add as plus, subtract};\nfn main() { plus(); subtract() }\n";
    let path = package.write("main.simf", source);
    let snapshot = package.analyze(source, &path);
    assert!(snapshot.compiler_diagnostics.is_empty());

    for (needle, expected_name) in [
        ("add as", "add"),
        ("plus,", "add"),
        ("subtract}", "subtract"),
    ] {
        let offset = source.find(needle).unwrap() + 1;
        let function = snapshot
            .find_imported_function(Span::new(0, offset, offset))
            .expect("imported function");
        assert_eq!(function.name, expected_name);
        assert_eq!(
            snapshot.sources.get(function.span.file_id).unwrap().uri,
            dependency
        );
    }
    let module = source.find("math").unwrap() + 1;
    assert!(snapshot
        .find_imported_function(Span::new(0, module, module))
        .is_none());
}

#[test]
fn grouped_items_and_aliases_resolve_to_imported_definitions() {
    grouped_items();
}

#[test]
fn backend_use_items_and_aliases_resolve_to_the_imported_definition() {
    grouped_items();
}

#[test]
fn tests_use_items_and_aliases_resolve_to_the_imported_definition() {
    grouped_items();
}

#[test]
fn non_crate_reexports_keep_original_uri_span_and_alias_identity() {
    let mut package = Package::new();
    package.write(
        "Simplex.toml",
        "[dependencies]\nmerkle = { path = 'deps/merkle' }\nfacade = { path = 'deps/facade' }\n",
    );
    package.write("deps/merkle/Simplex.toml", "");
    let merkle = uri_of(&package.write(
        "deps/merkle/simf/build_root.simf",
        "pub mod wrapper {\n pub fn get_root() {}\n pub fn hash() {}\n}\npub use crate::wrapper::{get_root, hash};\n",
    ));
    package.write(
        "deps/facade/Simplex.toml",
        "[dependencies]\nleaf = { path = '../leaf' }\n",
    );
    package.write("deps/facade/simf/smth.simf", "pub use leaf::ops::hash;\n");
    package.write("deps/leaf/Simplex.toml", "");
    let leaf = uri_of(&package.write("deps/leaf/simf/ops.simf", "pub fn hash() {}\n"));
    let source = "use merkle::build_root::{get_root, hash as and_hash};\nuse facade::smth::hash as or_hash;\nfn main() { get_root(); and_hash(); or_hash(); }\n";
    let path = package.write("main.simf", source);
    let root = uri_of(&path);
    let snapshot = package.analyze(source, &path);
    assert!(snapshot.compiler_diagnostics.is_empty());

    let imported = |offset: usize| {
        snapshot
            .find_imported_function(Span::new(0, offset + 1, offset + 1))
            .expect("imported function")
    };
    let cases = [
        (source.find("get_root").unwrap(), "get_root", &merkle),
        (source.find("and_hash").unwrap(), "hash", &merkle),
        (source.rfind("hash as").unwrap(), "hash", &leaf),
        (source.find("or_hash").unwrap(), "hash", &leaf),
    ];
    for (offset, expected_name, expected_uri) in cases {
        let function = imported(offset);
        assert_eq!(function.name, expected_name);
        assert_eq!(
            snapshot.sources.get(function.span.file_id).unwrap().uri,
            *expected_uri
        );
    }

    let location = |uri: &str, line: u32, start: u32, end: u32| {
        Location::new(
            uri.to_string(),
            Range::new(Position::new(line, start), Position::new(line, end)),
        )
    };
    let merkle_root = location(&merkle, 1, 1, 21);
    let merkle_hash = location(&merkle, 2, 1, 17);
    let leaf_hash = location(&leaf, 0, 0, 16);
    let definition_cases = [
        (source.find("get_root").unwrap(), &merkle_root),
        (source.find("hash as").unwrap(), &merkle_hash),
        (source.find("and_hash").unwrap(), &merkle_hash),
        (source.rfind("hash as").unwrap(), &leaf_hash),
        (source.find("or_hash").unwrap(), &leaf_hash),
        (source.rfind("get_root").unwrap(), &merkle_root),
        (source.rfind("and_hash").unwrap(), &merkle_hash),
        (source.rfind("or_hash").unwrap(), &leaf_hash),
    ];
    for (offset, expected) in definition_cases {
        let position = offset_to_position(offset + 1, &snapshot.text).unwrap();
        let found = snapshot
            .definition_at(&root, position)
            .unwrap()
            .expect("definition");
        assert!(found.same(expected), "{found:?}");
    }
}

#[test]
fn duplicate_imported_mains_point_to_distinct_direct_and_transitive_uses() {
    let mut package = Package::new();
    package.write("Simplex.toml", "");
    package.write("first.simf", "pub fn first() {}\nfn main() {}\n");
    package.write("facade.simf", "pub use crate::leaf::second;\n");
    package.write("leaf.simf", "pub fn second() {}\nfn main() {}\n");
    let first_import = "use crate::first::first;";
    let second_import = "use crate::facade::second;";
    let source = format!("{first_import}\n{second_import}\nfn main() {{}}\n");
    let path = package.write("main.simf", &source);
    let snapshot = package.analyze(&source, &path);
    let diagnostic = snapshot
        .compiler_diagnostics
        .iter()
        .find(|report| {
            matches!(&report.kind, ErrorKind::FunctionRedefined(name) if name == "main")
        })
        .expect("duplicate main diagnostic");
    let Place::Code(span) = diagnostic.place else {
        panic!("duplicate main should point to source code");
    };
    assert_eq!(&source[span.start..span.end], first_import);
    assert!(diagnostic.secondary.iter().any(|label| {
        &source[label.span.start..label.span.end] == second_import
            && label.message.contains("Another imported `main`")
    }));
}
