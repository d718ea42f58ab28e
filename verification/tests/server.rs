use ropey::Rope;

use simplicityhl_lsp::analysis::AnalysisSnapshot;
use simplicityhl_lsp::compiler::parse_program;
use simplicityhl_lsp::completion::imports::context::Query;
use simplicityhl_lsp::completion::types::FunctionTemplate;
use simplicityhl_lsp::error::LspError;
use simplicityhl_lsp::protocol::{Position, Range};
use simplicityhl_lsp::server::completion::{plan, plan_text, CompletionPlan};
use simplicityhl_lsp::server::hover::hover;
use simplicityhl_lsp::server::symbols::document_symbols;
use simplicityhl_lsp::server::{
    change_folders, is_witness_path, needs_reanalysis, workspace_roots,
};
use simplicityhl_lsp::syntax::CallKind;
use simplicityhl_lsp::utils::BuiltinTemplates;

fn snapshot_of(source: &str) -> AnalysisSnapshot {
    let (program, _) = parse_program(0, source, &Vec::new());
    AnalysisSnapshot::from_program(
        &program.expect("valid program"),
        source,
        "file:///main.simf".to_string(),
    )
}

fn texts(list: &[&str]) -> Vec<String> {
    list.iter().map(|text| text.to_string()).collect()
}

fn builtins() -> BuiltinTemplates {
    BuiltinTemplates {
        entries: vec![(
            CallKind::Assert,
            FunctionTemplate::simple(
                "assert!".to_string(),
                texts(&["bool"]),
                "()".to_string(),
                "Fails on false.".to_string(),
            ),
        )],
    }
}

#[test]
fn witness_files_are_known_by_their_extension() {
    assert!(is_witness_path("/project/values.wit"));
    assert!(is_witness_path("/project/values.WiT"));
    assert!(!is_witness_path("/project/main.simf"));
    assert!(!is_witness_path("/project/wit"));
    assert!(!is_witness_path("/project/.wit"));
}

#[test]
fn sources_and_manifests_ask_for_a_new_analysis() {
    assert!(needs_reanalysis(&texts(&["/notes.txt", "/lib/math.simf"])));
    assert!(needs_reanalysis(&texts(&["/lib/Simplex.toml"])));
    assert!(needs_reanalysis(&texts(&["/lib/SIMPLEX.TOML"])));
    assert!(!needs_reanalysis(&texts(&["/lib/math.SIMF"])));
    assert!(!needs_reanalysis(&texts(&["/lib/Cargo.toml"])));
    assert!(!needs_reanalysis(&Vec::new()));
}

#[test]
fn the_root_counts_only_without_folders() {
    assert_eq!(
        workspace_roots(texts(&["/a", "/b"]), Some("/c".to_string())),
        vec!["/a", "/b"]
    );
    assert_eq!(
        workspace_roots(Vec::new(), Some("/c".to_string())),
        vec!["/c"]
    );
    assert!(workspace_roots(Vec::new(), None).is_empty());
}

#[test]
fn folders_go_and_come_and_none_comes_twice() {
    assert_eq!(
        change_folders(
            texts(&["/a", "/b", "/c"]),
            &texts(&["/b", "/x"]),
            &texts(&["/c", "/d", "/d"])
        ),
        vec!["/a", "/c", "/d"]
    );
    assert_eq!(
        change_folders(texts(&["/a"]), &texts(&["/a"]), &texts(&["/a"])),
        vec!["/a"]
    );
}

#[test]
fn functions_of_the_document_are_symbols() {
    let source = "fn add(a: u32, b: u32) -> u32 { a }\nfn main() {}\n";
    let symbols = document_symbols(&snapshot_of(source));
    assert_eq!(symbols.len(), 2);
    let add = symbols
        .iter()
        .find(|symbol| symbol.name == "add")
        .expect("symbol");
    assert_eq!(add.detail, "fn(a: u32, b: u32) -> u32");
    assert_eq!(
        add.range,
        Range::new(Position::new(0, 0), Position::new(0, 35))
    );
    assert_eq!(
        add.selection_range,
        Range::new(Position::new(0, 3), Position::new(0, 6))
    );
    let main = symbols
        .iter()
        .find(|symbol| symbol.name == "main")
        .expect("symbol");
    assert_eq!(main.detail, "fn() -> ()");
}

#[test]
fn a_function_without_its_text_is_no_symbol() {
    let mut snapshot = snapshot_of("fn main() {}\n");
    snapshot.text = Rope::from_str("fn other() {}\n");
    assert!(document_symbols(&snapshot).is_empty());
}

#[test]
fn a_call_is_described_by_its_kind() {
    let source = "/// Twice.\nfn double(a: u32) -> u32 { a }\nfn main() { assert!(jet::eq_32(double(1), 2)); }\n";
    let snapshot = snapshot_of(source);
    let column = |needle: &str| {
        let line = source.lines().nth(2).expect("line");
        u32::try_from(line.find(needle).expect("call")).expect("column")
    };
    let at = |needle: &str| {
        hover(
            &snapshot,
            &builtins(),
            Position::new(2, column(needle) + 1),
        )
        .expect("position")
        .expect("call")
    };

    let own = at("double");
    assert_eq!(
        own.contents,
        "```simplicityhl\nfn double(a: u32) -> u32\n```\n---\nTwice."
    );
    assert_eq!(
        own.range,
        Range::new(
            Position::new(2, column("double")),
            Position::new(2, column("double") + 6)
        )
    );
    let jet = at("jet::eq_32");
    assert!(jet
        .contents
        .starts_with("Jet function\n```simplicityhl\nfn eq_32(u32, u32) -> bool\n```\n---\n\n"));
    assert_eq!(
        at("assert!").contents,
        "Built-in function\n```simplicityhl\nfn assert!(bool) -> ()\n```\n---\nFails on false."
    );
    let none = BuiltinTemplates {
        entries: Vec::new(),
    };
    assert!(hover(&snapshot, &none, Position::new(2, column("assert!") + 1))
        .expect("position")
        .is_none());
}

#[test]
fn nothing_is_shown_outside_of_calls() {
    let snapshot = snapshot_of("// Text.\nfn main() {}\n");
    assert!(hover(&snapshot, &builtins(), Position::new(0, 2))
        .expect("position")
        .is_none());
    match hover(&snapshot, &builtins(), Position::new(9, 0)) {
        Err(LspError::ConversionFailed(message)) => assert_eq!(message, "Position to offset"),
        other => panic!("unexpected {other:?}"),
    }
}

#[test]
fn imports_are_completed_where_they_are_enabled() {
    match plan_text("fn main() {}\nuse std::".to_string(), Some(":"), true) {
        CompletionPlan::Import { context, source } => {
            assert_eq!(context.query, Query::Path(texts(&["std"])));
            assert_eq!(source, "fn main() {}\nuse std::");
        }
        other => panic!("unexpected {other:?}"),
    }
    assert!(matches!(
        plan_text("use std::".to_string(), Some(":"), false),
        CompletionPlan::Nothing
    ));
}

#[test]
fn characters_of_imports_open_no_other_list() {
    for trigger in [" ", "{", ","] {
        assert!(matches!(
            plan_text("fn main() {".to_string(), Some(trigger), true),
            CompletionPlan::Nothing
        ));
    }
    for trigger in [Some(":"), Some("<"), None] {
        match plan_text("fn main() {\n  jet:".to_string(), trigger, true) {
            CompletionPlan::Callable { line } => assert_eq!(line, "  jet:"),
            other => panic!("unexpected {other:?}"),
        }
    }
}

#[test]
fn a_completion_reads_the_document_up_to_the_cursor() {
    let snapshot = AnalysisSnapshot::new(
        "file:///main.simf".to_string(),
        Rope::from_str("fn main() {}\n😀 jet::add\n"),
    );
    match plan(&snapshot, Position::new(1, 8), None, true) {
        CompletionPlan::Callable { line } => assert_eq!(line, "😀 jet::"),
        other => panic!("unexpected {other:?}"),
    }
    assert!(matches!(
        plan(&snapshot, Position::new(1, 1), None, true),
        CompletionPlan::Nothing
    ));
    assert!(matches!(
        plan(&snapshot, Position::new(7, 0), None, true),
        CompletionPlan::Nothing
    ));
}
