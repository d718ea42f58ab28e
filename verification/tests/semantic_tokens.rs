use ropey::Rope;

use simplicityhl_lsp::analysis::AnalysisSnapshot;
use simplicityhl_lsp::compiler::parse_program;
use simplicityhl_lsp::semantic_tokens::{
    encode, legend, tokens, RawToken, SemanticToken, DEFINITION, FUNCTION, NAMESPACE,
};
use simplicityhl_lsp::text::offset_to_position;

type RawSemanticToken = (u32, u32, u32, u32, u32);

fn document_from_source(source: &str) -> AnalysisSnapshot {
    let (program, diagnostics) = parse_program(0, source, &Vec::new());
    let program = program.unwrap_or_else(|| panic!("source should parse: {diagnostics:?}"));
    AnalysisSnapshot::from_program(
        &program,
        source,
        "file:///semantic_tokens.simf".to_string(),
    )
}

fn decode_semantic_tokens(tokens: &[SemanticToken]) -> Vec<RawSemanticToken> {
    let mut line = 0;
    let mut character = 0;
    tokens
        .iter()
        .map(|token| {
            line += token.delta_line;
            character = if token.delta_line == 0 {
                character + token.delta_start
            } else {
                token.delta_start
            };
            (
                line,
                character,
                token.length,
                token.token_type,
                token.token_modifiers_bitset,
            )
        })
        .collect()
}

fn expected_token(source: &str, offset: usize, text: &str, token_type: u32) -> RawSemanticToken {
    let rope = Rope::from_str(source);
    let start = offset_to_position(offset, &rope).expect("valid token start");
    let end = offset_to_position(offset + text.len(), &rope).expect("valid token end");
    (
        start.line,
        start.character,
        end.character - start.character,
        token_type,
        0,
    )
}

#[test]
fn semantic_tokens_split_generic_callable_components() {
    let source = "// 😀 keeps UTF-16 columns honest\nfn consume_budget(acc: u32, item: u32) -> u32 { acc }\nfn main() { array_fold::<consume_budget, 320>(witness::PADDING, true); }\n";
    let document = document_from_source(source);
    let decoded = decode_semantic_tokens(&tokens(&document));
    let builtin_offset = source.find("array_fold").expect("array_fold call");
    let callback_offset = source.rfind("consume_budget").expect("callback argument");

    assert!(decoded.contains(&expected_token(
        source,
        builtin_offset,
        "array_fold",
        FUNCTION,
    )));
    assert!(decoded.contains(&expected_token(
        source,
        callback_offset,
        "consume_budget",
        FUNCTION,
    )));

    let bound_offset = source.find("320").expect("array bound");
    let bound_position = offset_to_position(bound_offset, &document.text).unwrap();
    assert!(!decoded.iter().any(|token| {
        token.0 == bound_position.line
            && token.1 <= bound_position.character
            && token.1 + token.2 > bound_position.character
    }));
}

#[test]
fn semantic_tokens_bound_each_builtin_to_its_identifier() {
    let source = "fn step(acc: u32, item: u32) -> u32 { acc }\nfn main() {\nfold::<step, 2>(0, 0);\nfor_while::<step>(0);\nunwrap_left::<u32>(0);\n<u32>::into(0);\njet::add_32(0, 0);\nassert!(true);\n}\n";
    let document = document_from_source(source);
    let decoded = decode_semantic_tokens(&tokens(&document));

    for name in ["fold", "for_while", "unwrap_left", "into", "assert!"] {
        let offset = source
            .find(name)
            .unwrap_or_else(|| panic!("missing {name}"));
        assert!(decoded.contains(&expected_token(source, offset, name, FUNCTION)));
    }

    let callback_offsets = [
        source.find("step, 2").unwrap(),
        source.rfind("step").unwrap(),
    ];
    for offset in callback_offsets {
        assert!(decoded.contains(&expected_token(source, offset, "step", FUNCTION)));
    }

    let jet_offset = source.find("jet::add_32").unwrap();
    assert!(decoded.contains(&expected_token(source, jet_offset, "jet", NAMESPACE)));
    assert!(decoded.contains(&expected_token(
        source,
        jet_offset + "jet::".len(),
        "add_32",
        FUNCTION,
    )));
}

#[test]
fn the_name_of_a_definition_is_marked_as_such() {
    let decoded = decode_semantic_tokens(&tokens(&document_from_source("fn main() {}\n")));
    assert_eq!(decoded, vec![(0, 3, 4, FUNCTION, DEFINITION)]);
}

#[test]
fn the_legend_names_the_numbers() {
    let legend = legend();
    assert_eq!(legend.token_types[FUNCTION as usize], "function");
    assert_eq!(legend.token_types[NAMESPACE as usize], "namespace");
    assert_eq!(legend.token_types.len(), 6);
    assert_eq!(legend.token_modifiers, vec!["declaration", "definition"]);
    assert_eq!(DEFINITION, 0b11);
}

fn raw(line: u32, character: u32) -> RawToken {
    RawToken {
        line,
        character,
        length: 2,
        token_type: FUNCTION,
        modifiers: 0,
    }
}

#[test]
fn tokens_are_sorted_and_stripped_of_duplicates_before_they_are_encoded() {
    let encoded = encode(&vec![raw(2, 5), raw(0, 3), raw(2, 1), raw(0, 3)]);
    let deltas: Vec<(u32, u32)> = encoded
        .iter()
        .map(|token| (token.delta_line, token.delta_start))
        .collect();
    assert_eq!(deltas, vec![(0, 3), (2, 1), (0, 4)]);
    assert_eq!(
        decode_semantic_tokens(&encoded)
            .iter()
            .map(|token| (token.0, token.1))
            .collect::<Vec<_>>(),
        vec![(0, 3), (2, 1), (2, 5)]
    );
    assert!(encode(&Vec::new()).is_empty());
}
