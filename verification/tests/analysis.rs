use std::sync::Arc;

use ropey::Rope;
use simplicityhl::ast::ElementsJetHinter;
use simplicityhl::error::{DiagnosticManager, Error as CompilerError};
use simplicityhl::parse::{ParseFromStrWithErrors, Program as CompilerProgram};
use simplicityhl::resolution::DependencyMapBuilder;
use simplicityhl::source::{CanonPath, CanonSourceFile};
use simplicityhl::{TemplateAst, UnstableFeatures};
use tempfile::TempDir;

use simplicityhl_lsp::analysis::resolution::{budget_of, resolve_function, ResolutionKey};
use simplicityhl_lsp::analysis::scopes::CallScope;
use simplicityhl_lsp::analysis::sources::{CompilerSource, Functions};
use simplicityhl_lsp::analysis::{AnalysisSnapshot, Compilation};
use simplicityhl_lsp::compiler::{
    cannot_parse, parse_program, read_diagnostic, read_program, UnstableFeature,
};
use simplicityhl_lsp::config::{ProjectSettings, Settings};
use simplicityhl_lsp::project::disk::{Disk, Question, Stop};
use simplicityhl_lsp::project::ProjectContext;
use simplicityhl_lsp::protocol::Range;
use simplicityhl_lsp::report::{CompilerDiagnostic, ErrorKind, Place};
use simplicityhl_lsp::syntax::{Item, Module, Program};
use simplicityhl_lsp::text::{offset_to_position, span_to_positions, Span};
use simplicityhl_lsp::workspace::diagnostics::DiagnosticBundle;

const ROOT: &str = "file:///project/simf/main.simf";

fn settings(imports: bool, enums: bool) -> Settings {
    let mut settings = Settings::default();
    settings.experimental_features.imports = imports;
    settings.experimental_features.enums = enums;
    settings
}

fn compiler_features(features: &[UnstableFeature]) -> UnstableFeatures {
    UnstableFeatures::new(
        features
            .iter()
            .map(|feature| match feature {
                UnstableFeature::Imports => simplicityhl::UnstableFeature::Imports,
                UnstableFeature::Enums => simplicityhl::UnstableFeature::Enums,
            })
            .collect::<Vec<_>>(),
    )
}

/// What the compiler makes of a document that imports nothing.
fn compile(text: &str, features: &Vec<UnstableFeature>) -> Compilation {
    let Some(input) = AnalysisSnapshot::compiler_input(text, features) else {
        return Compilation::Unavailable("not parsed".to_string());
    };
    let temp = TempDir::new().expect("temp dir");
    let path = CanonPath::canonicalize(temp.path()).expect("canonical directory");
    let dependencies = DependencyMapBuilder::new()
        .build(path.clone())
        .expect("dependency map");
    let result = TemplateAst::new_with_dep(
        CanonSourceFile::new(path, Arc::from(input)),
        &dependencies,
        &compiler_features(features),
        Box::new(ElementsJetHinter::new()),
    );
    match result {
        Ok(template) => Compilation::Resolved {
            program: read_program(template.resolved_program()),
            sources: Some(Vec::new()),
            diagnostics: template
                .diagnostics()
                .diagnostics()
                .iter()
                .map(read_diagnostic)
                .collect(),
        },
        Err(manager) => Compilation::Failed {
            graph: None,
            diagnostics: manager.diagnostics().iter().map(read_diagnostic).collect(),
        },
    }
}

fn analyze(source: &str, settings: &Settings) -> AnalysisSnapshot {
    let features = settings.unstable_features();
    let outcome = compile(source, &features);
    AnalysisSnapshot::analyze(source, ROOT.to_string(), &features, &outcome)
}

/// Whether the syntax of a source is at fault.
fn syntax_error(source: &str) -> String {
    let mut diagnostics = DiagnosticManager::new();
    let parsed = CompilerProgram::parse_from_str_with_errors(
        0,
        source,
        &UnstableFeatures::none(),
        &mut diagnostics,
    );
    assert!(parsed.is_none());
    diagnostics
        .diagnostics()
        .iter()
        .find(|diagnostic| matches!(diagnostic.error(), CompilerError::Syntax { .. }))
        .expect("syntax error")
        .error()
        .to_string()
}

#[test]
fn parse_failure_retains_the_exact_root_source() {
    let source = "// 😀\nfn broken() -> u32 ";
    let snapshot = analyze(source, &Settings::default());

    assert_eq!(snapshot.text.to_string(), source);
    assert_eq!(snapshot.sources.len(), 1);
    assert_eq!(snapshot.sources.root_source().uri, ROOT);
    assert_eq!(snapshot.sources.root_source().text.to_string(), source);
    let expected = syntax_error(source);
    assert!(snapshot
        .compiler_diagnostics
        .iter()
        .any(|diagnostic| diagnostic.message == expected));
}

fn known_scope() {
    let source = "fn target() {}\nfn owner() { target(); }\n";
    let (program, _) = parse_program(0, source, &Vec::new());
    let program = program.expect("valid program");
    let mut snapshot = AnalysisSnapshot::from_program(
        &program,
        source,
        "file:///module-scope-test.simf".to_string(),
    );
    let owner = snapshot
        .functions
        .get_func("owner")
        .expect("owner function")
        .copy();

    assert!(snapshot.resolve_custom_call(&owner, "target").is_some());
    snapshot.call_scopes.push(CallScope {
        owners: vec![owner.span],
        bindings: Functions::new(),
    });
    assert!(snapshot.resolve_custom_call(&owner, "target").is_none());
}

#[test]
fn analysis_known_scope_does_not_fall_back_to_root_visible_functions() {
    known_scope();
}

#[test]
fn tests_known_scope_does_not_fall_back_to_root_visible_functions() {
    known_scope();
}

#[test]
fn valid_program_collects_functions() {
    let source = "fn add(a: u32, b: u32) -> u32 { let (_, sum): (bool, u32) = jet::add_32(a, b); sum }\nfn main() {}";
    let snapshot = analyze(source, &Settings::default());

    assert!(
        snapshot.compiler_diagnostics.is_empty(),
        "unexpected diagnostics: {:?}",
        snapshot.compiler_diagnostics
    );
    assert_eq!(snapshot.functions.len(), 2);
}

fn library_keeps_definitions() {
    let source = "fn helper() {}\nfn caller() { helper() }\n";
    let snapshot = analyze(source, &Settings::default());

    assert!(snapshot.compiler_diagnostics.is_empty());
    let call_start = source.rfind("helper").expect("helper call");
    let call = snapshot
        .find_related_call(Span::new(0, call_start + 1, call_start + 1))
        .expect("helper call should remain navigable");
    let function = snapshot
        .functions
        .get_func(&call.name.text)
        .expect("helper definition");
    assert_eq!(function.name, "helper");
    assert_eq!(function.span.file_id, 0);
    assert_eq!(
        snapshot
            .sources
            .get(function.span.file_id)
            .expect("root source")
            .uri,
        ROOT
    );
}

#[test]
fn library_without_main_keeps_definition_metadata() {
    library_keeps_definitions();
}

#[test]
fn backend_library_file_without_main_keeps_definition_metadata() {
    library_keeps_definitions();
}

#[test]
fn tests_library_file_without_main_keeps_definition_metadata() {
    library_keeps_definitions();
}

fn nested_main() {
    let source = "mod nested { fn main() {} }\n";
    let snapshot = analyze(source, &settings(true, false));

    assert!(!snapshot.compiler_diagnostics.iter().any(|diagnostic| {
        matches!(&diagnostic.kind, ErrorKind::FunctionRedefined(name) if name == "main")
    }));
    let expected = CompilerError::MainOutOfEntryFile.to_string();
    assert!(snapshot.compiler_diagnostics.iter().any(|diagnostic| {
        matches!(&diagnostic.kind, ErrorKind::CannotParse(msg) if msg == &expected)
    }));
}

#[test]
fn nested_main_does_not_conflict_with_the_synthetic_entry_point() {
    nested_main();
}

#[test]
fn backend_nested_main_does_not_conflict_with_a_synthetic_entry_point() {
    nested_main();
}

#[test]
fn tests_nested_main_does_not_conflict_with_a_synthetic_entry_point() {
    nested_main();
}

fn enum_setting() {
    let source = "enum Choice { Yes, No, }\nfn main() {}\n";
    let disabled = analyze(source, &Settings::default());
    let expected = CompilerError::UnstableFeature {
        feature: simplicityhl::UnstableFeature::Enums,
    }
    .to_string();
    assert!(disabled
        .compiler_diagnostics
        .iter()
        .any(|diagnostic| diagnostic.message == expected));

    let enabled = analyze(source, &settings(false, true));
    assert!(enabled.compiler_diagnostics.is_empty());
}

#[test]
fn enum_analysis_respects_the_feature_setting() {
    enum_setting();
}

#[test]
fn backend_parse_program_respects_the_enum_feature_setting() {
    enum_setting();
}

#[test]
fn tests_parse_program_respects_the_enum_feature_setting() {
    enum_setting();
}

#[test]
fn invalid_ast_is_reported_without_discarding_the_snapshot() {
    let source = "fn add(a: u32, b: u32) -> u32 {}\nfn main() {}";
    let snapshot = analyze(source, &Settings::default());

    assert!(snapshot.compiler_diagnostics.iter().any(|diagnostic| {
        diagnostic
            .message
            .contains("Expected expression of type `u32`, found type `()`")
    }));
    assert!(snapshot.functions.get_func("add").is_some());
}

/// Looks for a project on a disk that holds a manifest and a source.
fn discover(settings: &ProjectSettings) -> Result<ProjectContext, String> {
    let document = "/project/simf/main.simf";
    let files = ["/project/Simplex.toml", document];
    let directories = ["/", "/project", "/project/simf"];
    let mut disk = Disk::new();
    loop {
        let stop = match ProjectContext::discover(
            document,
            settings,
            &vec!["/project".to_string()],
            &disk,
        ) {
            Ok(context) => return Ok(context),
            Err(stop) => stop,
        };
        match stop {
            Stop::Failed(error) => return Err(error.message()),
            Stop::Asked(Question::Canonical(path)) => {
                let known = files.contains(&path.as_str()) || directories.contains(&path.as_str());
                let answer = if known {
                    Ok(path.clone())
                } else {
                    Err("not found".to_string())
                };
                disk.canonical.insert(path, answer);
            }
            Stop::Asked(Question::IsFile(path)) => {
                let answer = files.contains(&path.as_str());
                disk.files.insert(path, answer);
            }
            Stop::Asked(Question::IsDirectory(path)) => {
                let answer = directories.contains(&path.as_str());
                disk.directories.insert(path, answer);
            }
            Stop::Asked(Question::Manifest(path)) => {
                disk.manifests.insert(path, Ok(Default::default()));
            }
            Stop::Asked(question) => panic!("unexpected question {question:?}"),
        }
    }
}

fn missing_manifest(source: &str) {
    assert!(discover(&ProjectSettings::default()).is_ok());
    let mut settings = Settings::default();
    settings.project.simplex.manifest_path = "nowhere/Simplex.toml".to_string();
    let message = discover(&settings.project).expect_err("missing manifest");
    let snapshot = AnalysisSnapshot::analyze(
        source,
        ROOT.to_string(),
        &settings.unstable_features(),
        &Compilation::Unavailable(message),
    );

    assert!(snapshot
        .compiler_diagnostics
        .iter()
        .any(|diagnostic| diagnostic
            .message
            .contains("Simplex manifest was not found")));
}

#[test]
fn missing_configured_manifest_is_an_analysis_diagnostic() {
    missing_manifest("fn main() {}\n");
}

fn sample_program() -> &'static str {
    "fn add(a: u32, b: u32) -> u32 { let (_, res): (bool, u32) = jet::add_32(a, b); res }
     fn main() {}"
}

#[test]
fn tests_parse_program_reports_a_missing_configured_manifest() {
    missing_manifest(sample_program());
}

#[test]
fn backend_parse_program_reports_a_missing_configured_manifest() {
    missing_manifest(sample_program());
}

fn sample_is_valid() {
    let snapshot = analyze(sample_program(), &Settings::default());
    assert!(
        snapshot.compiler_diagnostics.is_empty(),
        "Expected no parsing error, got {:?}",
        snapshot.compiler_diagnostics
    );
    assert_eq!(snapshot.functions.len(), 2);
}

#[test]
fn tests_test_parse_program_valid() {
    sample_is_valid();
}

#[test]
fn backend_test_parse_program_valid() {
    sample_is_valid();
}

fn invalid_parse() {
    let source = "fn add(a: u32, b: u32) -> u32 ";
    let snapshot = analyze(source, &Settings::default());
    assert_eq!(
        snapshot
            .compiler_diagnostics
            .first()
            .expect("program should produce an error")
            .message,
        syntax_error(source)
    );
    assert!(AnalysisSnapshot::compiler_input(source, &Vec::new()).is_none());
    assert_eq!(snapshot.functions.len(), 0);
}

#[test]
fn tests_test_parse_program_invalid_parse() {
    invalid_parse();
}

#[test]
fn backend_test_parse_program_invalid_parse() {
    invalid_parse();
}

fn selection_range() {
    let source = "/* 😀 */ fn main() {}";
    let snapshot = analyze(source, &Settings::default());
    assert!(snapshot.compiler_diagnostics.is_empty());
    let function = snapshot.functions.get_func("main").expect("main function");
    let (start, end) = span_to_positions(&function.span, &snapshot.text).unwrap();
    let selection = snapshot.find_function_name_range(function).unwrap();
    let name_start = source.find("main").unwrap();

    assert!(start.not_after(&selection.start) && selection.end.not_after(&end));
    assert_eq!(
        selection,
        Range::new(
            offset_to_position(name_start, &snapshot.text).unwrap(),
            offset_to_position(name_start + "main".len(), &snapshot.text).unwrap(),
        )
    );
}

#[test]
fn function_selection_range_is_inside_its_full_range() {
    selection_range();
}

#[test]
fn backend_function_selection_range_is_inside_its_document_symbol_range() {
    selection_range();
}

#[test]
fn tests_function_selection_range_is_inside_its_document_symbol_range() {
    selection_range();
}

fn stale_text() {
    let source = "fn main() {}";
    let mut snapshot = analyze(source, &Settings::default());
    let function = snapshot.functions.get_func("main").unwrap().copy();
    snapshot.text = Rope::from_str(&format!("// {}\n{source}", "x".repeat(100)));

    assert!(snapshot.find_function_name_range(&function).is_err());
}

#[test]
fn stale_text_cannot_produce_an_out_of_bounds_selection_range() {
    stale_text();
}

#[test]
fn backend_stale_analysis_cannot_produce_an_out_of_bounds_selection_range() {
    stale_text();
}

#[test]
fn tests_stale_analysis_cannot_produce_an_out_of_bounds_selection_range() {
    stale_text();
}

fn call_outside() {
    let snapshot = analyze("/* heading */\nfn main() {}", &Settings::default());
    assert!(snapshot.compiler_diagnostics.is_empty());
    assert!(snapshot.find_related_call(Span::new(0, 0, 0)).is_none());
}

#[test]
fn looking_for_a_call_outside_a_function_is_empty() {
    call_outside();
}

#[test]
fn backend_looking_for_a_call_outside_a_function_is_an_empty_result() {
    call_outside();
}

#[test]
fn tests_looking_for_a_call_outside_a_function_is_an_empty_result() {
    call_outside();
}

fn labels_notes_and_help() {
    let source = "fn main() {}\n";
    let (program, _) = parse_program(0, source, &Vec::new());
    let mut document = AnalysisSnapshot::from_program(
        &program.expect("source should parse"),
        source,
        ROOT.to_string(),
    );
    let diagnostic = simplicityhl::error::Diagnostic::new(
        CompilerError::CannotParse {
            msg: "primary".to_string(),
        },
        simplicityhl::error::Span::new(0, 3..7),
    )
    .with_secondary(simplicityhl::error::Span::new(0, 0..2), "secondary")
    .with_note("context")
    .with_help("fix it");
    document.compiler_diagnostics = vec![read_diagnostic(&diagnostic)];
    let bundle = DiagnosticBundle::from_snapshot(&document);
    let published = bundle.get(ROOT).expect("root diagnostic")[0];

    assert!(published.message.contains("Note: context"));
    assert!(published.message.contains("Help: fix it"));
    let related = &published.related_information;
    assert_eq!(related.len(), 1);
    assert_eq!(related[0].message, "secondary");
    assert_eq!(related[0].location.uri, ROOT);
}

#[test]
fn backend_lsp_diagnostics_preserve_secondary_labels_notes_and_help() {
    labels_notes_and_help();
}

#[test]
fn tests_lsp_diagnostics_preserve_secondary_labels_notes_and_help() {
    labels_notes_and_help();
}

/// Points the imports of a unit at the units that they mean.
fn resolve_imports(items: &mut Vec<Item>, unit: usize, targets: &[(&str, usize)]) {
    for item in items {
        match item {
            Item::Use(declaration) => {
                let path = declaration.path.join("::");
                let (prefix, target) = targets
                    .iter()
                    .find(|(prefix, _)| path == *prefix || path.starts_with(&format!("{prefix}::")))
                    .map_or(("crate", unit), |(prefix, target)| (*prefix, *target));
                let rest = path[prefix.len()..].to_string();
                declaration.path = vec!["crate".to_string(), format!("unit_{target}")];
                declaration.path.extend(
                    rest.split("::")
                        .filter(|segment| !segment.is_empty())
                        .map(str::to_string),
                );
            }
            Item::Module(module) => resolve_imports(&mut module.items, unit, targets),
            _ => {}
        }
    }
}

/// A program of several sources, each in its unit, with imports that point at the units.
fn resolved(sources: &[(&str, &str)], targets: &[(&str, usize)]) -> Compilation {
    let features = vec![UnstableFeature::Imports];
    let mut items = Vec::new();
    for (unit, (_, content)) in sources.iter().enumerate() {
        let (program, _) = parse_program(unit, content, &features);
        let mut program = program.expect("source should parse");
        resolve_imports(&mut program.items, unit, targets);
        items.push(Item::Module(Module {
            public: true,
            name: format!("unit_{unit}"),
            items: program.items,
        }));
    }
    Compilation::Resolved {
        program: Program { items },
        sources: Some(
            sources
                .iter()
                .enumerate()
                .map(|(unit, (uri, content))| CompilerSource {
                    file_id: unit,
                    uri: uri.to_string(),
                    content: content.to_string(),
                })
                .collect(),
        ),
        diagnostics: Vec::new(),
    }
}

fn analyze_resolved(sources: &[(&str, &str)], targets: &[(&str, usize)]) -> AnalysisSnapshot {
    AnalysisSnapshot::analyze(
        sources[0].1,
        sources[0].0.to_string(),
        &vec![UnstableFeature::Imports],
        &resolved(sources, targets),
    )
}

#[test]
fn a_circle_of_re_exports_ends() {
    let sources = [
        (ROOT, "use crate::a::lost;\nfn main() {}\n"),
        ("file:///project/simf/a.simf", "pub use crate::b::lost;\n"),
        ("file:///project/simf/b.simf", "pub use crate::a::lost;\n"),
    ];
    let targets = [("crate::a", 1), ("crate::b", 2)];
    let snapshot = analyze_resolved(&sources, &targets);
    assert!(snapshot.functions.get_func("lost").is_none());
    assert_eq!(snapshot.functions.len(), 1);
}

#[test]
fn a_function_is_found_through_its_module() {
    let Compilation::Resolved { program, .. } = resolved(
        &[(ROOT, "mod inner { fn target() {} }\nfn main() {}\n")],
        &[],
    ) else {
        panic!("resolved program");
    };
    let found = resolve_function(
        &program,
        &ResolutionKey {
            file_id: 0,
            path: vec!["inner".to_string()],
            name: "target".to_string(),
        },
        &mut Vec::new(),
        budget_of(&program),
    );
    assert_eq!(found.expect("function in module").name, "target");
}

fn duplicate_main() -> CompilerDiagnostic {
    CompilerDiagnostic {
        kind: ErrorKind::FunctionRedefined("main".to_string()),
        message: "Function `main` was defined multiple times".to_string(),
        severity: simplicityhl_lsp::protocol::Severity::Error,
        place: Place::Global,
        secondary: Vec::new(),
        notes: Vec::new(),
        help: None,
    }
}

#[test]
fn other_reports_of_a_failure_stay() {
    let features = Vec::new();
    let snapshot = AnalysisSnapshot::analyze(
        "fn main() {}\n",
        ROOT.to_string(),
        &features,
        &Compilation::Failed {
            graph: None,
            diagnostics: vec![cannot_parse("first"), duplicate_main()],
        },
    );
    assert_eq!(snapshot.compiler_diagnostics.len(), 2);
    assert!(matches!(
        &snapshot.compiler_diagnostics[0].kind,
        ErrorKind::CannotParse(message) if message == "first"
    ));
    assert_eq!(snapshot.compiler_diagnostics[1].place, Place::Global);
}

#[test]
fn a_source_without_main_gets_one_behind_its_text() {
    assert_eq!(
        AnalysisSnapshot::compiler_input("fn helper() {}", &Vec::new()).as_deref(),
        Some("fn helper() {}\nfn main() {}\n")
    );
    assert_eq!(
        AnalysisSnapshot::compiler_input("fn main() {}", &Vec::new()).as_deref(),
        Some("fn main() {}")
    );
}
