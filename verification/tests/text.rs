use ropey::Rope;

use simplicityhl_lsp::error::LspError;
use simplicityhl_lsp::protocol::Position;
use simplicityhl_lsp::text::{
    get_comments_from_lines, offset_to_position, position_to_offset, position_to_span,
    span_contains, span_to_positions, Span,
};

#[test]
fn extracts_contiguous_markdown_comments() {
    let cases = [
        (
            "/// This is a test.\n/// It has two lines.\nfn func() {}",
            2,
            "This is a test. It has two lines.",
        ),
        (
            "/// # Title\n/// - Point one\n/// - Point two\nfn func() {}",
            3,
            "# Title\n- Point one\n- Point two",
        ),
        (
            "/// This is not part of the doc \n\n/// This is part of the doc\nfn func() {}",
            3,
            "This is part of the doc",
        ),
        ("fn func() {}", 0, ""),
    ];
    for (source, line, expected) in cases {
        assert_eq!(
            get_comments_from_lines(line, &Rope::from_str(source)),
            expected
        );
    }
}

#[test]
fn test_span_to_positions_handles_multibyte_utf8_before_span() {
    let text = Rope::from_str("/// π\nfn foo() {}");

    // "/// " = 4 bytes, "π" = 2 bytes, "\n" = 1 byte, so `fn` starts at byte 7.
    let span = Span::new(0, 7, 9);

    let (start, end) = span_to_positions(&span, &text).expect("span conversion should succeed");

    assert_eq!(start, Position::new(1, 0));
    assert_eq!(end, Position::new(1, 2));
}

#[test]
fn position_to_offset_uses_utf16_boundaries() {
    assert!(
        position_to_offset(Position::new(0, 1), &Rope::from_str("😀x")).is_err(),
        "a cursor cannot point into the middle of a UTF-16 surrogate pair"
    );

    for (source, utf16_column, byte_offset) in [
        ("😀x", 2, 4),
        ("foo", 0, 0),
        ("    foo()", 4, 4),
        ("πx", 1, 2),
    ] {
        assert_eq!(
            position_to_offset(Position::new(0, utf16_column), &Rope::from_str(source)).unwrap(),
            byte_offset
        );
    }
    assert_eq!(
        position_to_span(Position::new(0, 4), &Rope::from_str("    foo()")).unwrap(),
        Span::new(0, 4, 4)
    );
}

#[test]
fn positions_outside_of_a_document_are_refused_with_a_reason() {
    let rope = Rope::from_str("ab\n😀");
    for (position, expected) in [
        (
            Position::new(1, 1),
            "Position points inside a UTF-16 code unit sequence",
        ),
        (Position::new(2, 0), "Position to offset"),
    ] {
        match position_to_offset(position, &rope) {
            Err(LspError::ConversionFailed(message)) => assert_eq!(message, expected),
            other => panic!("unexpected {other:?}"),
        }
    }
    assert!(offset_to_position(8, &rope).is_err());
}

fn refusal<T: std::fmt::Debug>(result: Result<T, LspError>) -> String {
    match result {
        Err(LspError::ConversionFailed(message)) => message,
        other => panic!("unexpected {other:?}"),
    }
}

#[test]
fn an_offset_inside_of_a_character_is_refused_with_a_reason() {
    let rope = Rope::from_str("ab\n😀");
    assert_eq!(refusal(offset_to_position(4, &rope)), "Offset to position");
    assert_eq!(
        refusal(span_to_positions(&Span::new(0, 0, 5), &rope)),
        "Offset to position"
    );
}

#[test]
fn a_span_at_a_position_is_refused_as_its_offset_is() {
    let rope = Rope::from_str("ab\n😀");
    for position in [Position::new(1, 1), Position::new(0, 9), Position::new(2, 0)] {
        assert_eq!(
            refusal(position_to_span(position, &rope)),
            refusal(position_to_offset(position, &rope))
        );
    }
}

#[test]
fn offsets_and_positions_convert_back_and_forth() {
    let source = "first\n😀 second\r\nπ";
    let rope = Rope::from_str(source);
    for (offset, _) in source.char_indices() {
        if source.is_char_boundary(offset) && !source[offset..].starts_with('\n') {
            let position = offset_to_position(offset, &rope).unwrap();
            assert_eq!(position_to_offset(position, &rope).unwrap(), offset);
        }
    }
}

#[test]
fn positions_come_in_the_order_of_their_offsets() {
    let source = "a😀b\nc\n\nπd";
    let rope = Rope::from_str(source);
    let positions: Vec<Position> = source
        .char_indices()
        .map(|(offset, _)| offset_to_position(offset, &rope).unwrap())
        .collect();
    for pair in positions.windows(2) {
        assert!(pair[0].not_after(&pair[1]));
    }
}

#[test]
fn a_span_contains_the_spans_inside_of_it() {
    let outer = Span::new(0, 2, 8);
    assert!(span_contains(&outer, &Span::new(0, 2, 8)));
    assert!(span_contains(&outer, &Span::new(0, 8, 8)));
    assert!(!span_contains(&outer, &Span::new(0, 1, 3)));
    assert!(!span_contains(&outer, &Span::new(1, 3, 4)));
}
