use ropey::Rope;

use simplicityhl_lsp::analysis::AnalysisSnapshot;
use simplicityhl_lsp::compiler::parse_program;
use simplicityhl_lsp::completion::types::FunctionTemplate;
use simplicityhl_lsp::error::LspError;
use simplicityhl_lsp::protocol::Position;
use simplicityhl_lsp::signature_help::{at, call_context, function_name, in_line};
use simplicityhl_lsp::syntax::CallKind;
use simplicityhl_lsp::utils::BuiltinTemplates;

fn no_builtins() -> BuiltinTemplates {
    BuiltinTemplates {
        entries: Vec::new(),
    }
}

#[test]
fn extracts_callable_names() {
    let cases = [
        ("foo", Some("foo")),
        ("my_func", Some("my_func")),
        ("jet::add_32", Some("jet::add_32")),
        ("fold::<f, 8>", Some("fold")),
        ("unwrap_left::<u8>", Some("unwrap_left")),
        ("let x = foo", Some("foo")),
        ("é; fold::<f, 8>", Some("fold")),
        ("", None),
    ];
    for (text, expected) in cases {
        assert_eq!(function_name(text).as_deref(), expected);
    }
}

#[test]
fn finds_nested_call_context_and_active_parameter() {
    let cases = [
        ("foo(", Some(("foo", 0))),
        ("foo(a, ", Some(("foo", 1))),
        ("foo(a, b, ", Some(("foo", 2))),
        ("outer(inner(x), ", Some(("outer", 1))),
        ("jet::add_32(a, ", Some(("jet::add_32", 1))),
        ("add(é, ", Some(("add", 1))),
        ("sum(日本, ", Some(("sum", 1))),
        ("f(éé", Some(("f", 0))),
        ("let x = 5", None),
    ];
    for (line, expected) in cases {
        assert_eq!(
            call_context(line),
            expected.map(|(name, index)| (name.to_string(), index))
        );
    }
}

#[test]
fn utf16_cursor_selects_the_exact_line_prefix() {
    let source = "😀 jet::add_32(1, ";
    let snapshot = AnalysisSnapshot::new(
        "file:///signature.simf".to_string(),
        Rope::from_str(source),
    );
    let help = at(&snapshot, &no_builtins(), Position::new(0, 18))
        .expect("valid UTF-16 cursor")
        .expect("jet signature");

    assert_eq!(help.active_parameter, 1);
    assert!(help.signature.label.starts_with("fn add_32("));
    assert!(at(&snapshot, &no_builtins(), Position::new(0, 1)).is_err());
    assert!(at(&snapshot, &no_builtins(), Position::new(0, 19))
        .unwrap()
        .is_none());
}

#[test]
fn a_line_behind_the_document_is_an_error() {
    let snapshot =
        AnalysisSnapshot::new("file:///short.simf".to_string(), Rope::from_str("foo("));
    match at(&snapshot, &no_builtins(), Position::new(1, 0)) {
        Err(LspError::Internal(message)) => assert_eq!(message, "Line not found"),
        other => panic!("unexpected {other:?}"),
    }
    assert!(at(&snapshot, &no_builtins(), Position::new(0, 4))
        .unwrap()
        .is_none());
}

#[test]
fn visible_functions_come_before_built_in_ones() {
    let source = "/// Doubles.\nfn unwrap(a: u32) -> u32 { a }\nfn main() {}\n";
    let (program, _) = parse_program(0, source, &Vec::new());
    let snapshot = AnalysisSnapshot::from_program(
        &program.expect("valid program"),
        source,
        "file:///main.simf".to_string(),
    );
    let builtins = BuiltinTemplates {
        entries: vec![
            (
                CallKind::Unwrap,
                FunctionTemplate::simple(
                    "unwrap".to_string(),
                    Vec::new(),
                    "T".to_string(),
                    String::new(),
                ),
            ),
            (
                CallKind::Assert,
                FunctionTemplate::simple(
                    "assert!".to_string(),
                    vec!["bool".to_string()],
                    "()".to_string(),
                    String::new(),
                ),
            ),
        ],
    };
    let own = in_line(&snapshot, &builtins, "unwrap(1, ").expect("visible function");
    assert_eq!(own.signature.label, "fn unwrap(a: u32) -> u32");
    assert_eq!(own.signature.documentation.as_deref(), Some("Doubles."));
    assert_eq!(own.active_parameter, 1);

    assert!(in_line(&snapshot, &builtins, "assert!(").is_none());
    assert!(in_line(&snapshot, &builtins, "jet::no_such_jet(").is_none());
    assert!(in_line(&snapshot, &builtins, "unknown(").is_none());
}
