use regula::error::{decimal_text, hex_text, line_col, message, message_around, snippet};
use regula::{CompilerError, ErrorKind, Span};

#[test]
fn new_keeps_its_arguments() {
    let e = CompilerError::new(
        ErrorKind::InvalidSyntax,
        Span::new(1, 2),
        b"abc",
        String::from("f.rg"),
    );
    assert_eq!(e.kind, ErrorKind::InvalidSyntax);
    assert_eq!(e.span, Span::new(1, 2));
    assert_eq!(e.input, b"abc".to_vec());
    assert_eq!(e.filename, "f.rg");
}

#[test]
fn line_col_is_one_based() {
    assert_eq!(line_col(b"", 0), (1, 1));
    assert_eq!(line_col(b"abc", 0), (1, 1));
    assert_eq!(line_col(b"abc", 2), (1, 3));
    assert_eq!(line_col(b"abc", 3), (1, 4));
}

#[test]
fn line_col_counts_line_feeds() {
    let input = b"ab\ncd\n\nef";
    assert_eq!(line_col(input, 2), (1, 3));
    assert_eq!(line_col(input, 3), (2, 1));
    assert_eq!(line_col(input, 5), (2, 3));
    assert_eq!(line_col(input, 6), (3, 1));
    assert_eq!(line_col(input, 7), (4, 1));
    assert_eq!(line_col(input, 9), (4, 3));
}

#[test]
fn line_col_counts_bytes_not_characters() {
    assert_eq!(line_col("\u{E9}x".as_bytes(), 2), (1, 3));
}

#[test]
fn line_col_beyond_the_buffer_is_its_end() {
    assert_eq!(line_col(b"a\nb", 100), (2, 2));
}

#[test]
fn snippet_is_the_text_under_the_span() {
    assert_eq!(snippet(b"let x = 1;", Span::new(4, 5)), "x");
    assert_eq!(snippet(b"let x = 1;", Span::new(0, 10)), "let x = 1;");
    assert_eq!(snippet(b"let", Span::new(3, 3)), "");
}

#[test]
fn snippet_clamps_the_span() {
    assert_eq!(snippet(b"abc", Span::new(1, 10)), "bc");
    assert_eq!(snippet(b"abc", Span::new(5, 10)), "");
    assert_eq!(snippet(b"abc", Span::new(2, 1)), "");
}

#[test]
fn snippet_replaces_malformed_bytes() {
    assert_eq!(snippet(&[0x61, 0xFF, 0x62], Span::new(0, 3)), "a\u{FFFD}b");
    assert_eq!(snippet(&[0xE4, 0xB8], Span::new(0, 2)), "\u{FFFD}");
}

#[test]
fn decimal_text_of_numbers() {
    assert_eq!(decimal_text(0), "0");
    assert_eq!(decimal_text(7), "7");
    assert_eq!(decimal_text(10), "10");
    assert_eq!(decimal_text(1234567890), "1234567890");
    assert_eq!(decimal_text(usize::MAX), usize::MAX.to_string());
}

#[test]
fn hex_text_of_numbers() {
    assert_eq!(hex_text(0), "0");
    assert_eq!(hex_text(0x40), "40");
    assert_eq!(hex_text(0x0a), "a");
    assert_eq!(hex_text(0xff), "ff");
    assert_eq!(hex_text(0x1f600), "1f600");
}

#[test]
fn kind_names() {
    let all = [
        (ErrorKind::UnclosedString, "UnclosedString"),
        (ErrorKind::UnexpectedCharacter, "UnexpectedCharacter"),
        (ErrorKind::UnclosedParenthesis, "UnclosedParenthesis"),
        (ErrorKind::MissingSemicolon, "MissingSemicolon"),
        (ErrorKind::InvalidSyntax, "InvalidSyntax"),
        (ErrorKind::ExpectedInteger, "ExpectedInteger"),
        (ErrorKind::ExpectedFloat, "ExpectedFloat"),
        (ErrorKind::ExpectedIdentifier, "ExpectedIdentifier"),
        (ErrorKind::ExpectedString, "ExpectedString"),
        (ErrorKind::ExpectedBoolean, "ExpectedBoolean"),
        (ErrorKind::ExpectedNone, "ExpectedNone"),
        (ErrorKind::ExpectedType, "ExpectedType"),
        (ErrorKind::MissingTypeAnnotation, "MissingTypeAnnotation"),
        (ErrorKind::MissingAssignment, "MissingAssignment"),
    ];
    for (kind, name) in all {
        assert_eq!(kind.name(), name);
        assert_eq!(format!("{:?}", kind), name);
    }
}

#[test]
fn message_of_each_kind() {
    let all = [
        (ErrorKind::UnclosedString, "unclosed string literal `xy`"),
        (ErrorKind::UnexpectedCharacter, "unexpected character `xy`(0x78)"),
        (
            ErrorKind::UnclosedParenthesis,
            "unclosed parenthesis (expected `)` to close this `(`",
        ),
        (
            ErrorKind::MissingSemicolon,
            "missing semicolon (please add a `;` after the expression)",
        ),
        (ErrorKind::InvalidSyntax, "invalid syntax `xy`"),
        (ErrorKind::ExpectedInteger, "expected an integer, but found `xy`"),
        (ErrorKind::ExpectedFloat, "expected a float, but found `xy`"),
        (ErrorKind::ExpectedIdentifier, "expected an identifier, but found `xy`"),
        (ErrorKind::ExpectedString, "expected a string, but found `xy`"),
        (ErrorKind::ExpectedBoolean, "expected a boolean, but found `xy`"),
        (ErrorKind::ExpectedNone, "expected a None, but found `xy`"),
        (ErrorKind::ExpectedType, "expected a type after `:`, but found `xy`"),
        (
            ErrorKind::MissingTypeAnnotation,
            "const need a type annotation, but found `xy`",
        ),
        (ErrorKind::MissingAssignment, "need a assignment, but found `xy`"),
    ];
    for (kind, text) in all {
        assert_eq!(message(&kind, Span::new(2, 4), b"a xy b"), text);
        assert_eq!(message_around(&kind, "xy", 0x78), text);
    }
}

#[test]
fn message_of_an_unexpected_character_beyond_the_buffer() {
    assert_eq!(
        message(&ErrorKind::UnexpectedCharacter, Span::new(9, 9), b"abc"),
        "unexpected character ``(0x0)"
    );
}

#[test]
fn message_shows_the_first_byte_of_a_wide_character() {
    assert_eq!(
        message(&ErrorKind::UnexpectedCharacter, Span::new(0, 3), "\u{2192}".as_bytes()),
        "unexpected character `\u{2192}`(0xe2)"
    );
}

#[test]
fn format_lays_out_file_lines_columns_kind_and_message() {
    let input = b"let a = 1;\nlet b = 'x\ny';";
    assert_eq!(
        regula::error::format(&ErrorKind::UnclosedString,
            Span::new(19, 21),
            input,
            &String::from("src/main.rg"),
        ),
        "src/main.rg:2~2:9~11 UnclosedString: unclosed string literal `'x`"
    );
}

#[test]
fn format_of_a_span_over_several_lines() {
    let input = b"a\nbc\ndef";
    assert_eq!(
        regula::error::format(&ErrorKind::InvalidSyntax, Span::new(0, 8), input, &String::from("f")),
        "f:1~3:1~4 InvalidSyntax: invalid syntax `a\nbc\ndef`"
    );
}

#[test]
fn to_string_is_the_format_of_the_fields() {
    let e = CompilerError::new(
        ErrorKind::ExpectedType,
        Span::new(7, 8),
        b"let x: y = 1;",
        String::from("<stdin>"),
    );
    assert_eq!(
        e.to_string(),
        "<stdin>:1~1:8~9 ExpectedType: expected a type after `:`, but found `y`"
    );
    assert_eq!(e.to_string(), regula::error::format(&e.kind, e.span, &e.input, &e.filename));
}
