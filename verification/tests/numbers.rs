use simplicityhl_lsp::numbers::{parse_number, to_decimal, to_hex};
use simplicityhl_lsp::split::{find_boundary, first_word, split_at_char, split_at_colons};

fn chars(text: &str) -> Vec<char> {
    text.chars().collect()
}

fn texts(pieces: Vec<&[char]>) -> Vec<String> {
    pieces
        .into_iter()
        .map(|piece| piece.iter().collect())
        .collect()
}

#[test]
fn numbers_are_read_as_they_are_written() {
    for n in [0usize, 7, 10, 4096, usize::MAX] {
        assert_eq!(to_decimal(n), n.to_string());
        assert_eq!(parse_number(&to_decimal(n)), Some(n));
    }
    assert_eq!(parse_number(""), None);
    assert_eq!(parse_number("1a"), None);
    assert_eq!(parse_number("99999999999999999999999"), None);
}

#[test]
fn hexadecimal_numbers_have_sixteen_digits() {
    for n in [0u64, 9, 10, 255, 4096, u64::MAX] {
        assert_eq!(to_hex(n), format!("{n:016x}"));
    }
}

#[test]
fn texts_are_split_at_every_separator() {
    assert_eq!(texts(split_at_char(&chars("a,,b"), ',')), vec!["a", "", "b"]);
    assert_eq!(texts(split_at_char(&chars(""), ',')), vec![""]);
    assert_eq!(
        texts(split_at_colons(&chars("a::b:c:::d"))),
        vec!["a", "b:c", ":d"]
    );
    assert_eq!(first_word(&chars("add as plus")), chars("add").as_slice());
}

#[test]
fn an_offset_inside_of_a_character_is_no_boundary() {
    let text = chars("aé😀");
    assert_eq!(find_boundary(&text, 0), Some(0));
    assert_eq!(find_boundary(&text, 1), Some(1));
    assert_eq!(find_boundary(&text, 2), None);
    assert_eq!(find_boundary(&text, 3), Some(2));
    assert_eq!(find_boundary(&text, 7), Some(3));
    assert_eq!(find_boundary(&text, 8), None);
}
