use simplicityhl_lsp::completion::types::FunctionTemplate;
use simplicityhl_lsp::protocol::Position;
use simplicityhl_lsp::syntax::CallKind;
use simplicityhl_lsp::text_map::TextMap;
use simplicityhl_lsp::utils::{
    create_signature_info, extract_function_name, find_builtin_signature,
    find_function_call_context, find_key_position, BuiltinTemplates,
};

#[test]
fn test_extract_function_name() {
    // Simple function name
    assert_eq!(extract_function_name("foo"), Some("foo".to_string()));
    assert_eq!(
        extract_function_name("my_func"),
        Some("my_func".to_string())
    );

    // With module prefix
    assert_eq!(
        extract_function_name("jet::add_32"),
        Some("jet::add_32".to_string())
    );

    // With generic parameters
    assert_eq!(
        extract_function_name("fold::<f, 8>"),
        Some("fold".to_string())
    );
    assert_eq!(
        extract_function_name("unwrap_left::<u8>"),
        Some("unwrap_left".to_string())
    );

    // With leading whitespace/expressions
    assert_eq!(
        extract_function_name("let x = foo"),
        Some("foo".to_string())
    );

    // Empty input
    assert_eq!(extract_function_name(""), None);
}

#[test]
fn test_find_function_call_context() {
    // Simple function call
    assert_eq!(
        find_function_call_context("foo("),
        Some(("foo".to_string(), 0))
    );
    assert_eq!(
        find_function_call_context("foo(a, "),
        Some(("foo".to_string(), 1))
    );
    assert_eq!(
        find_function_call_context("foo(a, b, "),
        Some(("foo".to_string(), 2))
    );

    // Nested function calls
    assert_eq!(
        find_function_call_context("outer(inner(x), "),
        Some(("outer".to_string(), 1))
    );

    // With module prefix
    assert_eq!(
        find_function_call_context("jet::add_32(a, "),
        Some(("jet::add_32".to_string(), 1))
    );

    // No function call
    assert_eq!(find_function_call_context("let x = 5"), None);
}

#[test]
fn test_find_function_call_context_handles_multibyte_arguments() {
    assert_eq!(
        find_function_call_context("add(é, "),
        Some(("add".to_string(), 1))
    );
    assert_eq!(
        find_function_call_context("sum(日本, "),
        Some(("sum".to_string(), 1))
    );
    assert_eq!(
        find_function_call_context("f(éé"),
        Some(("f".to_string(), 0))
    );
}

#[test]
fn test_extract_function_name_handles_multibyte_before_generics() {
    assert_eq!(
        extract_function_name("é; fold::<f, 8>"),
        Some("fold".to_string())
    );
}

#[test]
fn a_separator_inside_of_brackets_does_not_count() {
    assert_eq!(
        find_function_call_context("f([a, b], <u8, u8>, "),
        Some(("f".to_string(), 2))
    );
    assert_eq!(extract_function_name("::"), None);
    assert_eq!(extract_function_name("::foo  "), Some("foo".to_string()));
}

#[test]
fn a_key_is_found_by_its_line_and_byte_column() {
    let text = "{\n  \"é\": 1, \"key\": 2\n}";
    assert_eq!(find_key_position(text, "key"), Some(Position::new(1, 11)));
    assert_eq!(find_key_position(text, "é"), Some(Position::new(1, 2)));
    assert_eq!(find_key_position(text, "none"), None);
    assert_eq!(find_key_position("", "key"), None);
}

fn template(name: &str, description: &str) -> FunctionTemplate {
    FunctionTemplate::simple(
        name.to_string(),
        vec!["a: u32".to_string(), "b: u8".to_string()],
        "u1".to_string(),
        description.to_string(),
    )
}

#[test]
fn a_signature_shows_its_template() {
    let shown = create_signature_info(&template("pair", "Pairs."));
    assert_eq!(shown.label, "fn pair(a: u32, b: u8) -> u1");
    assert_eq!(shown.documentation.as_deref(), Some("Pairs."));
    assert_eq!(shown.parameters, vec!["a: u32", "b: u8"]);

    assert!(create_signature_info(&template("pair", ""))
        .documentation
        .is_none());
}

#[test]
fn built_in_functions_are_found_by_their_names() {
    let builtins = BuiltinTemplates {
        entries: vec![
            (CallKind::Unwrap, template("unwrap", "")),
            (CallKind::Debug, template("dbg!", "")),
        ],
    };
    assert_eq!(
        find_builtin_signature("dbg!", &builtins)
            .expect("known built-in")
            .label,
        "fn dbg!(a: u32, b: u8) -> u1"
    );
    assert!(find_builtin_signature("unwrap", &builtins).is_some());
    assert!(find_builtin_signature("assert!", &builtins).is_none());
    assert!(find_builtin_signature("fold", &builtins).is_none());
}

#[test]
fn a_text_map_is_walked_in_the_order_of_its_keys() {
    let mut map: TextMap<u32> = TextMap::new();
    for (key, value) in [("b", 1), ("a", 2), ("c", 3), ("b", 4)] {
        map.insert(key.to_string(), value);
    }
    map.remove("a");
    map.remove("x");
    map.insert("aa".to_string(), 5);
    let keys: Vec<&str> = (0..map.len()).map(|i| map.key_at(i).as_str()).collect();
    assert_eq!(keys, vec!["aa", "b", "c"]);
    assert_eq!(map.get("b"), Some(&4));
    assert_eq!(map.get("a"), None);
}
