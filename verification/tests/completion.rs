use std::collections::BTreeMap;

use simplicityhl_lsp::analysis::AnalysisSnapshot;
use simplicityhl_lsp::completion::builtin::{builtin_templates, match_callname};
use simplicityhl_lsp::completion::callables::offered_callables;
use simplicityhl_lsp::completion::imports::candidates::{
    candidates_from_items, parse_source_candidates, Candidate, CandidateKind,
};
use simplicityhl_lsp::completion::imports::context::{ImportCompletionContext, Query};
use simplicityhl_lsp::completion::imports::search::{complete_import, to_completion_items};
use simplicityhl_lsp::completion::jet::get_jets_completions;
use simplicityhl_lsp::completion::types::{function_to_template, join};
use simplicityhl_lsp::compiler::{parse_program, UnstableFeature};
use simplicityhl_lsp::config::ProjectSettings;
use simplicityhl_lsp::project::disk::{
    DependencyConfig, DirectoryEntry, Disk, Question, SimplexConfig, Stop,
};
use simplicityhl_lsp::project::ProjectContext;
use simplicityhl_lsp::syntax::CallKind;

/// The files of a project by their paths, and the dependencies that manifests name.
struct Files {
    texts: BTreeMap<String, String>,
    dependencies: BTreeMap<String, Vec<(String, String)>>,
}

impl Files {
    fn new() -> Self {
        Self {
            texts: BTreeMap::new(),
            dependencies: BTreeMap::new(),
        }
    }

    fn write(&mut self, path: &str, text: &str) {
        self.texts.insert(path.to_string(), text.to_string());
    }

    fn depend(&mut self, manifest: &str, name: &str, path: &str) {
        self.dependencies
            .entry(manifest.to_string())
            .or_default()
            .push((name.to_string(), path.to_string()));
    }

    fn is_directory(&self, path: &str) -> bool {
        let prefix = format!("{}/", path.trim_end_matches('/'));
        self.texts.keys().any(|known| known.starts_with(&prefix))
    }

    fn entries(&self, directory: &str) -> Vec<DirectoryEntry> {
        let prefix = format!("{directory}/");
        let mut names: Vec<String> = self
            .texts
            .keys()
            .filter_map(|path| path.strip_prefix(&prefix))
            .map(|rest| rest.split('/').next().unwrap_or(rest).to_string())
            .collect();
        names.dedup();
        names
            .into_iter()
            .map(|name| {
                let path = format!("{prefix}{name}");
                DirectoryEntry {
                    is_directory: self.is_directory(&path),
                    canonical: path.clone(),
                    path,
                }
            })
            .collect()
    }

    fn answer(&self, disk: &mut Disk, question: Question) {
        match question {
            Question::Canonical(path) => {
                let known = self.texts.contains_key(&path) || self.is_directory(&path);
                let answer = if known {
                    Ok(path.clone())
                } else {
                    Err("missing".to_string())
                };
                disk.canonical.insert(path, answer);
            }
            Question::IsFile(path) => {
                let answer = self.texts.contains_key(&path);
                disk.files.insert(path, answer);
            }
            Question::IsDirectory(path) => {
                let answer = self.is_directory(&path);
                disk.directories.insert(path, answer);
            }
            Question::Manifest(path) => {
                let mut config = SimplexConfig::default();
                for (name, target) in self.dependencies.get(&path).into_iter().flatten() {
                    config.dependencies.insert(
                        name.clone(),
                        DependencyConfig {
                            path: Some(target.clone()),
                            git: None,
                            rev: None,
                            tag: None,
                        },
                    );
                }
                disk.manifests.insert(path, Ok(config));
            }
            Question::Source(path) => {
                let answer = self.texts.get(&path).cloned();
                disk.sources.insert(path, answer);
            }
            Question::Entries(path) => {
                let answer = self.entries(&path);
                disk.entries.insert(path, answer);
            }
        }
    }

    fn items_for(&mut self, document: &str, source: &str) -> Vec<Candidate> {
        self.write(document, source);
        let mut disk = Disk::new();
        let project = loop {
            match ProjectContext::discover(
                document,
                &ProjectSettings::default(),
                &vec!["/root".to_string()],
                &disk,
            ) {
                Ok(project) => break project,
                Err(Stop::Asked(question)) => self.answer(&mut disk, question),
                Err(Stop::Failed(error)) => panic!("{}", error.message()),
            }
        };
        let context = ImportCompletionContext::at(source, source.len()).expect("import context");
        loop {
            match complete_import(&context, source, document, &project, &disk) {
                Ok(items) => return items,
                Err(question) => self.answer(&mut disk, question),
            }
        }
    }

    fn labels_for(&mut self, document: &str, source: &str) -> Vec<String> {
        self.items_for(document, source)
            .into_iter()
            .map(|item| item.name)
            .collect()
    }
}

const MAIN: &str = "/root/simf/main.simf";

fn project() -> Files {
    let mut files = Files::new();
    files.write("/root/Simplex.toml", "");
    files
}

fn dependency_roots() {
    let mut files = project();
    files.depend("/root/Simplex.toml", "std", "vendor/std");
    files.write("/root/vendor/std/Simplex.toml", "");
    files.write(
        "/root/vendor/std/simf/math.simf",
        "// Add two words.\npub fn add(a: u32, b: u32) -> u32 { a }\nfn hidden() {}\n",
    );

    assert_eq!(files.labels_for(MAIN, "use st"), vec!["std"]);
    assert_eq!(files.labels_for(MAIN, "use std::ma"), vec!["math"]);
    assert_eq!(files.labels_for(MAIN, "use std::math::"), vec!["add"]);
}

#[test]
fn tests_completes_dependency_roots_modules_and_public_functions() {
    dependency_roots();
}

#[test]
fn imports_completes_dependency_roots_modules_and_public_functions() {
    dependency_roots();
}

fn grouped_imports() {
    let mut files = project();
    files.write(
        "/root/simf/math.simf",
        "pub fn add() {}\npub fn subtract() {}\n",
    );

    assert_eq!(
        files.labels_for(MAIN, "use crate::math::{add, "),
        vec!["subtract"]
    );
}

#[test]
fn tests_completes_grouped_imports_without_repeating_selected_items() {
    grouped_imports();
}

#[test]
fn imports_completes_grouped_imports_without_repeating_selected_items() {
    grouped_imports();
}

fn inline_modules() {
    let source = "pub mod math { pub fn add() {} fn hidden() {} }\nuse crate::math::";
    assert_eq!(project().labels_for(MAIN, source), vec!["add"]);
}

#[test]
fn tests_completes_current_file_inline_modules() {
    inline_modules();
}

#[test]
fn imports_completes_current_file_inline_modules() {
    inline_modules();
}

fn crate_root() {
    let source = "pub fn helper() {}\nfn hidden() {}\nmod inline_math {}\nuse crate::";
    let labels = project().labels_for(MAIN, source);

    assert!(!labels.contains(&"main".to_string()));
    assert!(!labels.contains(&"helper".to_string()));
    assert!(!labels.contains(&"hidden".to_string()));
    assert!(labels.contains(&"inline_math".to_string()));
}

#[test]
fn tests_crate_root_excludes_the_current_file_and_its_already_visible_items() {
    crate_root();
}

#[test]
fn imports_crate_root_excludes_the_current_file_and_its_already_visible_items() {
    crate_root();
}

fn use_in_comments() {
    let source = "fn main() {}\n// use crate::";
    assert!(ImportCompletionContext::at(source, source.len()).is_none());

    let source = "fn main() {}\n/* use crate:: */";
    assert!(ImportCompletionContext::at(source, source.len()).is_none());

    let source = "fn main() {}\n/* use crate::";
    assert!(ImportCompletionContext::at(source, source.len()).is_none());

    let source = "use crate::\n/* unfinished";
    assert!(ImportCompletionContext::at(source, source.len()).is_none());

    let source = "use crate::\n// unfinished";
    assert!(ImportCompletionContext::at(source, source.len()).is_none());
}

#[test]
fn tests_ignores_use_keywords_in_comments() {
    use_in_comments();
}

#[test]
fn imports_ignores_use_keywords_in_comments() {
    use_in_comments();
}

fn malformed_paths() {
    for source in ["use crate::::", "use crate::math:{", "use ::math::"] {
        let context = ImportCompletionContext::at(source, source.len()).unwrap();
        assert_eq!(context.query, Query::Suppressed, "{source}");
    }
}

#[test]
fn tests_malformed_import_paths_do_not_offer_misleading_candidates() {
    malformed_paths();
}

#[test]
fn imports_malformed_import_paths_do_not_offer_misleading_candidates() {
    malformed_paths();
}

fn signature_and_documentation() {
    let mut files = project();
    files.write(
        "/root/simf/math.simf",
        "/// Add two words.\npub fn add(a: u32, b: u32) -> u32 { a }\n",
    );
    let items = files.items_for(MAIN, "use crate::math::");

    assert_eq!(items.len(), 1);
    assert_eq!(items[0].name, "add");
    assert_eq!(items[0].kind, CandidateKind::Function);
    assert_eq!(items[0].detail, "fn(a: u32, b: u32) -> u32");
    assert_eq!(items[0].documentation.as_deref(), Some("Add two words."));
}

#[test]
fn tests_function_completion_includes_signature_and_documentation() {
    signature_and_documentation();
}

#[test]
fn imports_function_completion_includes_signature_and_documentation() {
    signature_and_documentation();
}

#[test]
fn an_unfinished_declaration_is_read_up_to_the_cursor() {
    let at = |source: &str| ImportCompletionContext::at(source, source.len());

    let roots = at("fn main() {}\nuse st").unwrap();
    assert_eq!(roots.query, Query::Roots);
    assert_eq!(roots.partial, "st");
    assert_eq!(roots.use_start, 13);

    let path = at("use std::math::ad").unwrap();
    assert_eq!(
        path.query,
        Query::Path(vec!["std".to_string(), "math".to_string()])
    );
    assert_eq!(path.partial, "ad");

    let list = at("use std::math::{sub, add as plus, mu").unwrap();
    assert_eq!(
        list.query,
        Query::Path(vec!["std".to_string(), "math".to_string()])
    );
    assert_eq!(list.partial, "mu");
    assert_eq!(list.already_imported, vec!["add", "sub"]);

    assert!(at("use std::math::add;").is_none());
    assert_eq!(at("use std::{a}").unwrap().query, Query::Suppressed);
    assert_eq!(at("use 9").unwrap().query, Query::Suppressed);
    assert!(at("fn main() {}").is_none());
    assert!(ImportCompletionContext::at("use é", 5).is_none());
}

#[test]
fn directories_and_sources_are_offered_as_modules() {
    let mut files = project();
    files.write("/root/simf/lib/inner.simf", "");
    files.write("/root/simf/math.simf", "");
    files.write("/root/simf/notes.txt", "");
    files.write("/root/simf/fn.simf", "");
    let items = files.items_for(MAIN, "use crate::");
    let shown: Vec<(&str, &str)> = items
        .iter()
        .map(|item| (item.name.as_str(), item.detail.as_str()))
        .collect();
    assert_eq!(
        shown,
        vec![
            ("lib", "Module directory `/root/simf/lib`"),
            ("math", "Module file `/root/simf/math.simf`"),
        ]
    );
    assert_eq!(files.labels_for(MAIN, "use crate::lib::"), vec!["inner"]);
    assert!(files.labels_for(MAIN, "use crate::lib::none::").is_empty());
    assert!(files.labels_for(MAIN, "use unknown::").is_empty());
}

#[test]
fn the_roots_of_paths_are_offered_with_what_they_mean() {
    let mut files = project();
    files.depend("/root/Simplex.toml", "std", "vendor/std");
    files.write("/root/vendor/std/Simplex.toml", "");
    files.write("/root/vendor/std/simf/math.simf", "");
    let items = files.items_for(MAIN, "use ");
    let shown: Vec<(&str, &str)> = items
        .iter()
        .map(|item| (item.name.as_str(), item.detail.as_str()))
        .collect();
    assert_eq!(
        shown,
        vec![
            ("crate", "Current package"),
            ("std", "Project dependency `/root/vendor/std/simf`"),
        ]
    );
}

#[test]
fn only_public_items_are_offered_to_other_sources() {
    let source = "pub type Word = u32;\ntype Hidden = u8;\npub enum Choice { Yes, No, }\npub mod inner { pub fn deep() {} }\nmod private {}\npub use crate::other::{f as g, h};\nuse crate::other::i;\npub fn f() {}\n";
    let shown: Vec<(String, CandidateKind, String)> = parse_source_candidates(source, &[])
        .into_iter()
        .map(|candidate| (candidate.name, candidate.kind, candidate.detail))
        .collect();
    let expected = [
        ("Word", CandidateKind::TypeParameter, "type Word = u32"),
        ("Choice", CandidateKind::Enum, "enum Choice"),
        ("inner", CandidateKind::Module, "Public inline module"),
        ("g", CandidateKind::Reference, "Public re-export"),
        ("h", CandidateKind::Reference, "Public re-export"),
        ("f", CandidateKind::Function, "fn() -> ()"),
    ];
    assert_eq!(shown.len(), expected.len());
    for (name, kind, detail) in expected {
        assert!(
            shown.contains(&(name.to_string(), kind, detail.to_string())),
            "{name}: {shown:?}"
        );
    }
    let inner = parse_source_candidates(source, &["inner".to_string()]);
    assert_eq!(inner[0].name, "deep");
    assert!(parse_source_candidates(source, &["none".to_string()]).is_empty());
    assert!(parse_source_candidates("fn broken(", &[]).is_empty());

    let (program, _) = parse_program(0, "pub fn f() {}", &vec![UnstableFeature::Imports]);
    let program = program.expect("valid program");
    assert_eq!(
        candidates_from_items(&program.items, "pub fn f() {}", &[]).len(),
        1
    );
}

fn plain(name: &str, kind: CandidateKind, detail: &str) -> Candidate {
    Candidate::plain(name.to_string(), kind, detail.to_string())
}

#[test]
fn what_is_offered_is_sorted_and_a_later_candidate_replaces_its_like() {
    let candidates = vec![
        plain("sub", CandidateKind::Function, "b"),
        plain("sub", CandidateKind::Module, "a"),
        plain("subtract", CandidateKind::Function, "c"),
        plain("sub", CandidateKind::Enum, "b"),
        plain("add", CandidateKind::Function, "d"),
        plain("sum", CandidateKind::Function, "e"),
    ];
    let shown: Vec<(String, CandidateKind)> =
        to_completion_items(&candidates, "su", &vec!["sum".to_string()])
            .into_iter()
            .map(|candidate| (candidate.name, candidate.kind))
            .collect();
    assert_eq!(
        shown,
        vec![
            ("sub".to_string(), CandidateKind::Module),
            ("sub".to_string(), CandidateKind::Enum),
            ("subtract".to_string(), CandidateKind::Function),
        ]
    );
}

#[test]
fn every_jet_is_shown_once() {
    let jets = get_jets_completions();
    assert_eq!(jets.len(), 471);
    let add = jets
        .iter()
        .find(|jet| jet.display_name == "add_32")
        .expect("jet");
    assert_eq!(add.args, vec!["u32", "u32"]);
    assert_eq!(add.return_type, "(bool, u32)");
    assert!(!add.description.is_empty());
    assert_eq!(add.get_signature(), "fn(u32, u32) -> (bool, u32)");
}

#[test]
fn a_function_without_a_result_returns_the_unit() {
    let source = "fn f(a: u32) {}\nfn main() {}";
    let (program, _) = parse_program(0, source, &Vec::new());
    let program = program.expect("valid program");
    let simplicityhl_lsp::syntax::Item::Function(function) = &program.items[0] else {
        panic!("function");
    };
    let template = function_to_template(function, "Text");
    assert_eq!(template.get_signature(), "fn(a: u32) -> ()");
    assert_eq!(template.get_declaration(), "fn f(a: u32) -> ()");
    assert_eq!(template.description, "Text");
    assert_eq!(join(&Vec::new(), ", "), "");
    assert_eq!(
        join(&vec!["a".to_string(), "b".to_string()], ", "),
        "a, b"
    );
}

fn sample_snapshot() -> AnalysisSnapshot {
    let source = "/// Doubles.\nfn double(a: u32) -> u32 { a }\n";
    let (program, _) = parse_program(0, source, &Vec::new());
    AnalysisSnapshot::from_program(
        &program.expect("valid program"),
        source,
        "file:///main.simf".to_string(),
    )
}

#[test]
fn the_end_of_a_line_decides_what_can_be_called() {
    let snapshot = sample_snapshot();
    let builtins = builtin_templates();
    let names = |line: &str| -> Option<Vec<String>> {
        offered_callables(line, &snapshot, &builtins)
            .map(|list| list.into_iter().map(|one| one.display_name).collect())
    };
    assert_eq!(names("  jet::").expect("jets").len(), 471);
    assert!(names("  jet:").is_none());
    assert!(names("a::").is_none());
    let all = names("  let x = ").expect("callables");
    assert_eq!(all.len(), 1 + builtins.entries.len());
    assert_eq!(all[0], "double");
    assert_eq!(all[1], "unwrap_left::<R>");
    assert_eq!(names("").expect("callables"), all);
}

#[test]
fn built_in_callables_are_shown_by_their_kinds() {
    assert_eq!(builtin_templates().entries.len(), 11);
    let unwrap = match_callname(CallKind::Unwrap).expect("template");
    assert_eq!(unwrap.get_declaration(), "fn unwrap(Option<T>) -> T");
    let fold = match_callname(CallKind::Fold).expect("template");
    assert_eq!(
        fold.get_declaration(),
        "fn fold::<f, N>(List<E, N>, A) -> A"
    );
    let panics = match_callname(CallKind::Panic).expect("template");
    assert_eq!(panics.get_signature(), "fn() -> ()");
    assert!(match_callname(CallKind::Jet).is_none());
    assert!(match_callname(CallKind::Custom).is_none());
}
