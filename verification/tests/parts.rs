use ropey::Rope;

use simplicityhl_lsp::analysis::entry_point::{
    imported_main_spans, ImportLink, ParsedGraph, ParsedSource,
};
use simplicityhl_lsp::analysis::{AnalysisSnapshot, Compilation};
use simplicityhl_lsp::compiler::{cannot_parse, parse_program, UnstableFeature};
use simplicityhl_lsp::completion::imports::candidates::module_candidates;
use simplicityhl_lsp::completion::imports::context::{ImportCompletionContext, Query};
use simplicityhl_lsp::completion::types::FunctionTemplate;
use simplicityhl_lsp::error::LspError;
use simplicityhl_lsp::lexer::{Token, TokenKind};
use simplicityhl_lsp::navigation::name_range_with;
use simplicityhl_lsp::project::git::numbered_repository_path;
use simplicityhl_lsp::protocol::{Position, Range};
use simplicityhl_lsp::semantic_tokens::{highlight, RawToken};
use simplicityhl_lsp::server::hover::describe_kind;
use simplicityhl_lsp::syntax::{CallKind, Program};
use simplicityhl_lsp::text::Span;
use simplicityhl_lsp::witness::{
    decode_keys, quoted_keys, validate_outline, JsonError, Member, Outline,
};

fn token(kind: TokenKind, text: &str, start: usize, end: usize) -> Token {
    Token {
        kind,
        text: text.to_string(),
        start,
        end,
    }
}

fn program(source: &str) -> Program {
    let (program, _) = parse_program(0, source, &vec![UnstableFeature::Imports]);
    program.expect("valid program")
}

fn snapshot(source: &str) -> AnalysisSnapshot {
    AnalysisSnapshot::from_program(&program(source), source, "file:///main.simf".to_string())
}

fn range(line: u32, start: u32, end: u32) -> Range {
    Range::new(Position::new(line, start), Position::new(line, end))
}

#[test]
fn a_declaration_is_read_behind_its_use_token() {
    let source: Vec<char> = "use std::ma".chars().collect();
    let tokens = vec![
        token(TokenKind::Use, "", 0, 3),
        token(TokenKind::Ident, "std", 4, 7),
        token(TokenKind::Other, "", 7, 9),
        token(TokenKind::Ident, "ma", 9, 11),
    ];
    let context = ImportCompletionContext::among(&source, &tokens).expect("context");
    assert_eq!(context.use_start, 0);
    assert_eq!(context.query, Query::Path(vec!["std".to_string()]));
    assert_eq!(context.partial, "ma");

    assert!(ImportCompletionContext::among(&source, &tokens[..2].iter().map(copy).collect()).is_none());
    assert!(ImportCompletionContext::among(&source, &Vec::new()).is_none());
}

fn copy(from: &Token) -> Token {
    token(from.kind, &from.text, from.start, from.end)
}

#[test]
fn a_name_is_found_behind_its_fn_token() {
    let source = "fn other() {} fn main() {}";
    let snapshot = snapshot(source);
    let main = snapshot.functions.get_func("main").expect("function");
    assert_eq!(main.span.start, 14);
    let tokens = vec![
        token(TokenKind::Fn, "", 0, 2),
        token(TokenKind::Ident, "main", 3, 7),
    ];
    assert_eq!(
        name_range_with(main, &snapshot.text, &tokens).expect("name"),
        range(0, 17, 21)
    );
    match name_range_with(main, &snapshot.text, &Vec::new()) {
        Err(LspError::FunctionNotFound(message)) => assert_eq!(
            message,
            "Function with name main not found inside its source span"
        ),
        other => panic!("unexpected {other:?}"),
    }
    let short = Rope::from_str("fn");
    match name_range_with(main, &short, &tokens) {
        Err(LspError::ConversionFailed(message)) => assert_eq!(message, "Offset to position"),
        other => panic!("unexpected {other:?}"),
    }
}

#[test]
fn an_imported_name_is_found_by_its_tokens() {
    let source = "use lib::f;\nfn f() {}\nfn main() {}\n";
    let snapshot = snapshot(source);
    let tokens = vec![
        token(TokenKind::Use, "", 0, 3),
        token(TokenKind::Ident, "lib", 4, 7),
        token(TokenKind::Ident, "f", 9, 10),
    ];
    let found = snapshot
        .find_imported_among(Span::new(0, 9, 9), &tokens)
        .expect("function");
    assert_eq!(found.name, "f");
    assert!(snapshot
        .find_imported_among(Span::new(0, 5, 5), &tokens)
        .is_none());
    assert!(snapshot
        .find_imported_among(Span::new(0, 9, 9), &Vec::new())
        .is_none());
}

#[test]
fn names_are_highlighted_where_they_are_found() {
    let snapshot = snapshot("fn main() {}\n");
    let none = highlight(&snapshot, &vec![None], &Vec::new());
    assert!(none.is_empty());
    assert_eq!(
        highlight(&snapshot, &vec![Some(range(0, 3, 7))], &Vec::new()),
        vec![RawToken {
            line: 0,
            character: 3,
            length: 4,
            token_type: 0,
            modifiers: 3,
        }]
    );
    let over_lines = Range::new(Position::new(0, 3), Position::new(1, 7));
    assert!(highlight(&snapshot, &vec![Some(over_lines)], &Vec::new()).is_empty());
}

#[test]
fn an_analysis_is_put_together_from_what_is_known() {
    let text = "fn main() {}\n";
    let uri = || "file:///main.simf".to_string();
    let failed = AnalysisSnapshot::assemble(
        text,
        uri(),
        None,
        vec![cannot_parse("first")],
        &Compilation::Unavailable("second".to_string()),
        &None,
    );
    assert_eq!(failed.functions.len(), 0);
    assert_eq!(failed.compiler_diagnostics.len(), 1);
    assert_eq!(
        failed.compiler_diagnostics[0].message,
        "Cannot parse: first"
    );

    let unavailable = AnalysisSnapshot::assemble(
        text,
        uri(),
        Some(program(text)),
        vec![cannot_parse("first")],
        &Compilation::Unavailable("second".to_string()),
        &None,
    );
    assert_eq!(unavailable.functions.len(), 1);
    assert_eq!(unavailable.compiler_diagnostics.len(), 2);
    assert_eq!(
        unavailable.compiler_diagnostics[1].message,
        "Cannot parse: second"
    );
}

#[test]
fn a_main_comes_in_through_the_imports_that_lead_to_it() {
    let root = program("use a::x;\nuse b::y;\nuse c::z;\n");
    let source = |file_id: usize, text: &str| ParsedSource {
        file_id,
        program: parse_program(file_id, text, &vec![UnstableFeature::Imports]).0,
    };
    let link = |file_id: usize, start: usize, end: usize, target: usize| ImportLink {
        file_id,
        span: Span::new(file_id, start, end),
        target,
    };
    let graph = ParsedGraph {
        sources: vec![
            source(1, "fn x() {}\n"),
            source(2, "use c::z;\n"),
            source(3, "fn main() {}\n"),
        ],
        links: vec![
            link(0, 0, 9, 1),
            link(0, 10, 19, 2),
            link(0, 20, 29, 3),
            link(2, 0, 9, 3),
        ],
    };
    assert_eq!(
        imported_main_spans(&root, &graph),
        vec![Span::new(0, 10, 19), Span::new(0, 20, 29)]
    );
}

#[test]
fn modules_are_offered_by_their_names() {
    let names: Vec<String> = module_candidates(&program("mod a {}\nfn f() {}\npub mod b {}\n").items)
        .into_iter()
        .map(|candidate| candidate.name)
        .collect();
    assert_eq!(names, vec!["a", "b"]);
}

#[test]
fn keys_are_quoted_until_they_are_decoded() {
    let text = "{\"a\": {\"b\": 1},\n \"\\u0063\": 2}";
    let quoted = quoted_keys(text);
    assert_eq!(
        quoted,
        vec![
            ("\"a\"".to_string(), Position::new(0, 1)),
            ("\"\\u0063\"".to_string(), Position::new(1, 1)),
        ]
    );
    assert_eq!(
        decode_keys(&quoted, &vec![None, Some("c".to_string())]),
        vec![("c".to_string(), Position::new(1, 1))]
    );
}

#[test]
fn an_outline_decides_what_is_reported() {
    let keys = vec![("a".to_string(), Position::new(0, 1))];
    let member = |name: &str, fields: Option<Vec<&str>>| Member {
        name: name.to_string(),
        fields: fields.map(|list| list.into_iter().map(str::to_string).collect()),
    };
    let messages = |outline: &Outline| -> Vec<String> {
        validate_outline("{}", outline, &keys)
            .into_iter()
            .map(|diagnostic| diagnostic.message)
            .collect()
    };
    assert!(messages(&Outline::Object(vec![member(
        "a",
        Some(vec!["type", "value"])
    )]))
    .is_empty());
    assert_eq!(
        messages(&Outline::Object(vec![
            member("a", Some(Vec::new())),
            member("a", None),
            member("unknown", None),
        ])),
        vec![
            "Witness 'a' is missing required 'value' field",
            "Witness 'a' is missing required 'type' field",
            "Witness 'a' must be an object with 'value' and 'type' fields",
        ]
    );
    assert_eq!(
        messages(&Outline::NotAnObject),
        vec!["Witness file must be a JSON object"]
    );
    let invalid = validate_outline(
        "é{",
        &Outline::Invalid(JsonError {
            line: 1,
            column: 3,
            message: "wrong".to_string(),
        }),
        &keys,
    );
    assert_eq!(invalid[0].message, "JSON syntax error: wrong");
    assert_eq!(invalid[0].range, range(0, 1, 2));
}

#[test]
fn a_callable_is_described_by_the_kind_of_its_call() {
    let template = FunctionTemplate::simple(
        "f".to_string(),
        vec!["u8".to_string(), "u8".to_string()],
        "u8".to_string(),
        "Text.".to_string(),
    );
    assert_eq!(
        describe_kind(CallKind::Jet, &template),
        "Jet function\n```simplicityhl\nfn f(u8, u8) -> u8\n```\n---\n\nText."
    );
    assert_eq!(
        describe_kind(CallKind::Custom, &template),
        "```simplicityhl\nfn f(u8, u8) -> u8\n```\n---\nText."
    );
    assert_eq!(
        describe_kind(CallKind::Unwrap, &template),
        "Built-in function\n```simplicityhl\nfn f(u8, u8) -> u8\n```\n---\nText."
    );
}

#[test]
fn a_repository_is_installed_under_its_name_and_number() {
    assert_eq!(
        numbered_repository_path("https://example.org/lib.git", 255).expect("path"),
        "lib-00000000000000ff"
    );
    assert!(numbered_repository_path("https://example.org/", 1).is_err());
}
