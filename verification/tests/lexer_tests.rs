use regula::lexer::{keyword, tokenize, wide_step, Lexer};
use regula::{ErrorKind, Span, Token, TokenType};

fn lex(source: &str) -> Vec<Token> {
    tokenize("<test>", source.as_bytes()).expect("the source lexes")
}

fn kinds(source: &str) -> Vec<TokenType> {
    lex(source).iter().map(|t| t.token_type).collect()
}

fn token(kind: TokenType, start: usize, end: usize) -> Token {
    Token::new(kind, Span::new(start, end))
}

fn first_error(source: &[u8]) -> (ErrorKind, Span) {
    let e = tokenize("<test>", source).expect_err("the source does not lex");
    assert_eq!(e.input, source.to_vec());
    assert_eq!(e.filename, "<test>");
    (e.kind, e.span)
}

#[test]
fn empty_source_is_eof() {
    assert_eq!(lex(""), vec![token(TokenType::Eof, 0, 0)]);
}

#[test]
fn whitespace_only_is_eof_at_the_end() {
    assert_eq!(lex(" \t\r\n\x0B\x0C "), vec![token(TokenType::Eof, 7, 7)]);
}

#[test]
fn eof_is_idempotent() {
    let mut lexer = Lexer::new("<test>", b"x  ");
    assert_eq!(lexer.next_token().unwrap(), token(TokenType::Identifier, 0, 1));
    let first = lexer.next_token().unwrap();
    assert_eq!(first, token(TokenType::Eof, 3, 3));
    assert_eq!(lexer.position(), 3);
    for _ in 0..3 {
        assert_eq!(lexer.next_token().unwrap(), first);
        assert_eq!(lexer.position(), 3);
    }
}

#[test]
fn a_new_lexer_stands_at_the_start() {
    let lexer = Lexer::new("<test>", b"abc");
    assert_eq!(lexer.position(), 0);
}

#[test]
fn unknown_symbol_is_reported_with_its_byte() {
    let e = tokenize("<test>", b"@").unwrap_err();
    assert_eq!(e.kind, ErrorKind::UnexpectedCharacter);
    assert_eq!(e.span, Span::new(0, 1));
    assert_eq!(
        e.to_string(),
        "<test>:1~1:1~2 UnexpectedCharacter: unexpected character `@`(0x40)"
    );
}

#[test]
fn unexpected_character_moves_the_lexer_behind_it() {
    let mut lexer = Lexer::new("<test>", b"  # x");
    let e = lexer.next_token().unwrap_err();
    assert_eq!(e.kind, ErrorKind::UnexpectedCharacter);
    assert_eq!(e.span, Span::new(2, 3));
    assert_eq!(lexer.position(), 3);
    assert_eq!(lexer.next_token().unwrap(), token(TokenType::Identifier, 4, 5));
}

#[test]
fn unexpected_wide_character_is_consumed_whole() {
    // U+1F600 takes four bytes and has no identifier property.
    let source = "\u{1F600}x";
    let mut lexer = Lexer::new("<test>", source.as_bytes());
    let e = lexer.next_token().unwrap_err();
    assert_eq!(e.kind, ErrorKind::UnexpectedCharacter);
    assert_eq!(e.span, Span::new(0, 4));
    assert_eq!(lexer.position(), 4);
}

#[test]
fn truncated_character_stops_at_the_end() {
    let mut lexer = Lexer::new("<test>", &[0xE4, 0xB8]);
    let e = lexer.next_token().unwrap_err();
    assert_eq!(e.kind, ErrorKind::UnexpectedCharacter);
    assert_eq!(e.span, Span::new(0, 2));
    assert_eq!(lexer.position(), 2);
    assert_eq!(lexer.next_token().unwrap(), token(TokenType::Eof, 2, 2));
}

#[test]
fn stray_continuation_byte_is_one_byte_wide() {
    assert_eq!(
        first_error(&[0x80, 0x41]),
        (ErrorKind::UnexpectedCharacter, Span::new(0, 1))
    );
}

#[test]
fn unterminated_string_is_unclosed() {
    assert_eq!(
        first_error(b"\"abc"),
        (ErrorKind::UnclosedString, Span::new(0, 4))
    );
}

#[test]
fn lone_quote_is_unclosed() {
    assert_eq!(first_error(b"\""), (ErrorKind::UnclosedString, Span::new(0, 1)));
}

#[test]
fn newline_in_string_is_unclosed_up_to_the_newline() {
    assert_eq!(
        first_error(b"x 'ab\ncd'"),
        (ErrorKind::UnclosedString, Span::new(2, 5))
    );
}

#[test]
fn escape_at_the_end_is_unclosed() {
    assert_eq!(
        first_error(b"\"ab\\"),
        (ErrorKind::UnclosedString, Span::new(0, 4))
    );
}

#[test]
fn unclosed_string_leaves_the_lexer_at_the_quote() {
    let mut lexer = Lexer::new("<test>", b" 'a");
    assert_eq!(lexer.next_token().unwrap_err().kind, ErrorKind::UnclosedString);
    assert_eq!(lexer.position(), 1);
    let again = lexer.next_token().unwrap_err();
    assert_eq!(again.kind, ErrorKind::UnclosedString);
    assert_eq!(again.span, Span::new(1, 3));
}

#[test]
fn strings_keep_their_quotes_in_the_span() {
    assert_eq!(
        lex("\"hi\" 'yo'"),
        vec![
            token(TokenType::String, 0, 4),
            token(TokenType::String, 5, 9),
            token(TokenType::Eof, 9, 9),
        ]
    );
}

#[test]
fn escape_skips_the_next_byte() {
    // The escaped quote does not close the literal; an escaped line feed does not break it.
    assert_eq!(
        lex("\"a\\\"b\" 'c\\\nd'"),
        vec![
            token(TokenType::String, 0, 6),
            token(TokenType::String, 7, 13),
            token(TokenType::Eof, 13, 13),
        ]
    );
}

#[test]
fn the_other_quote_does_not_close() {
    assert_eq!(
        lex("\"it's\""),
        vec![token(TokenType::String, 0, 6), token(TokenType::Eof, 6, 6)]
    );
}

#[test]
fn single_symbols() {
    assert_eq!(
        kinds("= + - * / % ( ) { } [ ] , ; : . < > ! & | ~ ^"),
        vec![
            TokenType::Assign,
            TokenType::Plus,
            TokenType::Minus,
            TokenType::Star,
            TokenType::Slash,
            TokenType::Mod,
            TokenType::LParen,
            TokenType::RParen,
            TokenType::LBrace,
            TokenType::RBrace,
            TokenType::LBracket,
            TokenType::RBracket,
            TokenType::Comma,
            TokenType::Semicolon,
            TokenType::Colon,
            TokenType::Dot,
            TokenType::Lt,
            TokenType::Gt,
            TokenType::Not,
            TokenType::Ampersand,
            TokenType::Pipe,
            TokenType::Tilde,
            TokenType::BitwiseXor,
            TokenType::Eof,
        ]
    );
}

#[test]
fn double_symbols() {
    assert_eq!(
        lex("** != <= >= == && || << >>"),
        vec![
            token(TokenType::Power, 0, 2),
            token(TokenType::Ne, 3, 5),
            token(TokenType::LtE, 6, 8),
            token(TokenType::GtE, 9, 11),
            token(TokenType::Eq, 12, 14),
            token(TokenType::And, 15, 17),
            token(TokenType::Or, 18, 20),
            token(TokenType::BitwiseShl, 21, 23),
            token(TokenType::BitwiseShr, 24, 26),
            token(TokenType::Eof, 26, 26),
        ]
    );
}

#[test]
fn longest_symbol_wins() {
    assert_eq!(
        kinds("***"),
        vec![TokenType::Power, TokenType::Star, TokenType::Eof]
    );
    assert_eq!(
        kinds("<<="),
        vec![TokenType::BitwiseShl, TokenType::Assign, TokenType::Eof]
    );
    assert_eq!(
        kinds("==="),
        vec![TokenType::Eq, TokenType::Assign, TokenType::Eof]
    );
}

#[test]
fn double_symbol_at_the_very_end() {
    assert_eq!(
        lex("a=="),
        vec![
            token(TokenType::Identifier, 0, 1),
            token(TokenType::Eq, 1, 3),
            token(TokenType::Eof, 3, 3),
        ]
    );
}

#[test]
fn symbol_followed_by_nul_stays_single() {
    let tokens = tokenize("<test>", b"+").unwrap();
    assert_eq!(tokens[0], token(TokenType::Plus, 0, 1));
    let e = tokenize("<test>", b"!\0").unwrap_err();
    assert_eq!(e.kind, ErrorKind::UnexpectedCharacter);
    assert_eq!(e.span, Span::new(1, 2));
}

#[test]
fn no_token_is_unknown() {
    let source = "let a = (1 + 2) * 3 ** 4 / 5 % 6; // c\n/* b */ x != y && !z || \"s\" <= 1.5e3";
    assert!(lex(source).iter().all(|t| t.token_type != TokenType::Unknown));
}

#[test]
fn slash_alone_is_a_token() {
    assert_eq!(
        lex("a / b"),
        vec![
            token(TokenType::Identifier, 0, 1),
            token(TokenType::Slash, 2, 3),
            token(TokenType::Identifier, 4, 5),
            token(TokenType::Eof, 5, 5),
        ]
    );
    assert_eq!(lex("/"), vec![token(TokenType::Slash, 0, 1), token(TokenType::Eof, 1, 1)]);
}

#[test]
fn repeated_slash_token_advances() {
    let mut lexer = Lexer::new("<test>", b"/ /");
    assert_eq!(lexer.next_token().unwrap(), token(TokenType::Slash, 0, 1));
    assert_eq!(lexer.next_token().unwrap(), token(TokenType::Slash, 2, 3));
    assert_eq!(lexer.next_token().unwrap(), token(TokenType::Eof, 3, 3));
}

#[test]
fn line_comment_runs_to_the_line_end() {
    assert_eq!(
        lex("a // b c\nd"),
        vec![
            token(TokenType::Identifier, 0, 1),
            token(TokenType::Identifier, 9, 10),
            token(TokenType::Eof, 10, 10),
        ]
    );
    assert_eq!(lex("// only"), vec![token(TokenType::Eof, 7, 7)]);
}

#[test]
fn block_comment_is_skipped() {
    assert_eq!(
        lex("a /* b\n * c **/ d"),
        vec![
            token(TokenType::Identifier, 0, 1),
            token(TokenType::Identifier, 16, 17),
            token(TokenType::Eof, 17, 17),
        ]
    );
}

#[test]
fn block_comments_do_not_nest() {
    assert_eq!(
        kinds("/* a /* b */ c */"),
        vec![TokenType::Identifier, TokenType::Star, TokenType::Slash, TokenType::Eof]
    );
}

#[test]
fn block_comment_needs_two_bytes_to_close() {
    // `/*/` opens a comment and does not close it.
    assert_eq!(lex("/*/ x"), vec![token(TokenType::Eof, 5, 5)]);
}

#[test]
fn unterminated_block_comment_is_silent() {
    assert_eq!(lex("a /* b"), vec![token(TokenType::Identifier, 0, 1), token(TokenType::Eof, 6, 6)]);
}

#[test]
fn comments_one_after_another() {
    assert_eq!(
        lex("/* a */ // b\n /* c */x"),
        vec![token(TokenType::Identifier, 21, 22), token(TokenType::Eof, 22, 22)]
    );
}

#[test]
fn decimal_integers() {
    assert_eq!(
        lex("0 7 1234567890"),
        vec![
            token(TokenType::Int, 0, 1),
            token(TokenType::Int, 2, 3),
            token(TokenType::Int, 4, 14),
            token(TokenType::Eof, 14, 14),
        ]
    );
}

#[test]
fn bare_zero_at_the_end() {
    assert_eq!(lex("0"), vec![token(TokenType::Int, 0, 1), token(TokenType::Eof, 1, 1)]);
    assert_eq!(
        lex("x 0"),
        vec![
            token(TokenType::Identifier, 0, 1),
            token(TokenType::Int, 2, 3),
            token(TokenType::Eof, 3, 3),
        ]
    );
}

#[test]
fn radix_integers() {
    assert_eq!(
        lex("0b1012 0o178 0xfFg 0B1 0O7 0X9"),
        vec![
            token(TokenType::Int, 0, 5),
            token(TokenType::Int, 5, 6),
            token(TokenType::Int, 7, 11),
            token(TokenType::Int, 11, 12),
            token(TokenType::Int, 13, 17),
            token(TokenType::Identifier, 17, 18),
            token(TokenType::Int, 19, 22),
            token(TokenType::Int, 23, 26),
            token(TokenType::Int, 27, 30),
            token(TokenType::Eof, 30, 30),
        ]
    );
}

#[test]
fn radix_prefix_takes_no_fraction() {
    assert_eq!(
        lex("0x1.5"),
        vec![
            token(TokenType::Int, 0, 3),
            token(TokenType::Dot, 3, 4),
            token(TokenType::Int, 4, 5),
            token(TokenType::Eof, 5, 5),
        ]
    );
}

#[test]
fn radix_prefix_without_digits() {
    assert_eq!(lex("0x"), vec![token(TokenType::Int, 0, 2), token(TokenType::Eof, 2, 2)]);
}

#[test]
fn floats() {
    assert_eq!(
        lex("1.5 2. 3e10 4E-2 5.25e+7 0.5 00.1"),
        vec![
            token(TokenType::Float, 0, 3),
            token(TokenType::Float, 4, 6),
            token(TokenType::Float, 7, 11),
            token(TokenType::Float, 12, 16),
            token(TokenType::Float, 17, 24),
            token(TokenType::Float, 25, 28),
            token(TokenType::Float, 29, 33),
            token(TokenType::Eof, 33, 33),
        ]
    );
}

#[test]
fn exponent_without_digits_is_still_a_float() {
    assert_eq!(
        lex("1e+ 2e"),
        vec![
            token(TokenType::Float, 0, 3),
            token(TokenType::Float, 4, 6),
            token(TokenType::Eof, 6, 6),
        ]
    );
}

#[test]
fn second_dot_is_not_part_of_the_number() {
    assert_eq!(
        kinds("1.2.3"),
        vec![TokenType::Float, TokenType::Dot, TokenType::Int, TokenType::Eof]
    );
}

#[test]
fn identifiers() {
    assert_eq!(
        lex("a _b c1_d Z9"),
        vec![
            token(TokenType::Identifier, 0, 1),
            token(TokenType::Identifier, 2, 4),
            token(TokenType::Identifier, 5, 9),
            token(TokenType::Identifier, 10, 12),
            token(TokenType::Eof, 12, 12),
        ]
    );
}

#[test]
fn identifier_stops_at_the_first_other_byte() {
    assert_eq!(
        lex("ab+cd"),
        vec![
            token(TokenType::Identifier, 0, 2),
            token(TokenType::Plus, 2, 3),
            token(TokenType::Identifier, 3, 5),
            token(TokenType::Eof, 5, 5),
        ]
    );
}

#[test]
fn number_then_identifier() {
    assert_eq!(
        kinds("1abc"),
        vec![TokenType::Int, TokenType::Identifier, TokenType::Eof]
    );
}

#[test]
fn unicode_identifiers() {
    // "é" and "ü" take two bytes each, "名" three, "𝑥" four.
    assert_eq!(
        lex("\u{E9}t\u{E9} na\u{FC} \u{540D}1 \u{1D465}"),
        vec![
            token(TokenType::Identifier, 0, 5),
            token(TokenType::Identifier, 6, 10),
            token(TokenType::Identifier, 11, 15),
            token(TokenType::Identifier, 16, 20),
            token(TokenType::Eof, 20, 20),
        ]
    );
}

#[test]
fn identifier_stops_at_a_wide_character_that_cannot_continue() {
    // U+2192 is an arrow.
    let e = tokenize("<test>", "ab\u{2192}".as_bytes()).unwrap_err();
    assert_eq!(e.kind, ErrorKind::UnexpectedCharacter);
    assert_eq!(e.span, Span::new(2, 5));
    let mut lexer = Lexer::new("<test>", "ab\u{2192}".as_bytes());
    assert_eq!(lexer.next_token().unwrap(), token(TokenType::Identifier, 0, 2));
}

#[test]
fn combining_mark_continues_but_does_not_start() {
    // U+0301 has XID_Continue and not XID_Start.
    assert_eq!(
        lex("e\u{301}"),
        vec![token(TokenType::Identifier, 0, 3), token(TokenType::Eof, 3, 3)]
    );
    assert_eq!(
        first_error("\u{301}".as_bytes()),
        (ErrorKind::UnexpectedCharacter, Span::new(0, 2))
    );
}

#[test]
fn read_other_follows_its_argument() {
    let source = "\u{E9}a+";
    let mut lexer = Lexer::new("<test>", source.as_bytes());
    assert_eq!(lexer.read_other(true).unwrap(), token(TokenType::Identifier, 0, 3));
    assert_eq!(lexer.position(), 3);
    let mut lexer = Lexer::new("<test>", source.as_bytes());
    let e = lexer.read_other(false).unwrap_err();
    assert_eq!(e.kind, ErrorKind::UnexpectedCharacter);
    assert_eq!(e.span, Span::new(0, 2));
    assert_eq!(lexer.position(), 2);
}

#[test]
fn wide_step_follows_its_argument() {
    assert_eq!(wide_step(5, 3, true), Some(8));
    assert_eq!(wide_step(5, 3, false), None);
}

#[test]
fn keywords() {
    assert_eq!(
        kinds(
            "let const struct impl enum mut if else while for in func return loop break \
             continue match import true false None int float string bool"
        ),
        vec![
            TokenType::Let,
            TokenType::Const,
            TokenType::Struct,
            TokenType::Impl,
            TokenType::Enum,
            TokenType::Mut,
            TokenType::If,
            TokenType::Else,
            TokenType::While,
            TokenType::For,
            TokenType::In,
            TokenType::Func,
            TokenType::Return,
            TokenType::Loop,
            TokenType::Break,
            TokenType::Continue,
            TokenType::Match,
            TokenType::Import,
            TokenType::True,
            TokenType::False,
            TokenType::NoneKeyword,
            TokenType::TypeInt,
            TokenType::TypeFloat,
            TokenType::TypeString,
            TokenType::TypeBoolean,
            TokenType::Eof,
        ]
    );
}

#[test]
fn keywords_are_whole_words_and_case_sensitive() {
    assert_eq!(
        kinds("lets Let none iff int1 _if"),
        vec![
            TokenType::Identifier,
            TokenType::Identifier,
            TokenType::Identifier,
            TokenType::Identifier,
            TokenType::Identifier,
            TokenType::Identifier,
            TokenType::Eof,
        ]
    );
}

#[test]
fn keyword_of_bytes() {
    assert_eq!(keyword(b"while"), TokenType::While);
    assert_eq!(keyword(b"whil"), TokenType::Identifier);
    assert_eq!(keyword(b""), TokenType::Identifier);
}

#[test]
fn statement_tokens_with_spans() {
    assert_eq!(
        lex("let x: int = 5;"),
        vec![
            token(TokenType::Let, 0, 3),
            token(TokenType::Identifier, 4, 5),
            token(TokenType::Colon, 5, 6),
            token(TokenType::TypeInt, 7, 10),
            token(TokenType::Assign, 11, 12),
            token(TokenType::Int, 13, 14),
            token(TokenType::Semicolon, 14, 15),
            token(TokenType::Eof, 15, 15),
        ]
    );
}

#[test]
fn spans_slice_the_lexemes() {
    let source = "foo /* c */ >= 0x1F \"s t\" 2.5e-3;";
    let texts: Vec<&str> = lex(source)
        .iter()
        .map(|t| &source[t.span.start..t.span.end])
        .collect();
    assert_eq!(texts, vec!["foo", ">=", "0x1F", "\"s t\"", "2.5e-3", ";", ""]);
}

#[test]
fn tokens_and_gaps_rebuild_the_source() {
    let source = "  let a = 1; // one\n/* two */ b ** (c - 2.5) /\td;\n\"s\\\"t\" \u{E9}\n";
    let bytes = source.as_bytes();
    let mut rebuilt: Vec<u8> = Vec::new();
    let mut at = 0;
    for t in lex(source) {
        assert!(at <= t.span.start && t.span.start <= t.span.end);
        rebuilt.extend_from_slice(&bytes[at..t.span.start]);
        rebuilt.extend_from_slice(&bytes[t.span.start..t.span.end]);
        at = t.span.end;
    }
    assert_eq!(at, bytes.len());
    assert_eq!(rebuilt, bytes.to_vec());
}

#[test]
fn gaps_hold_only_whitespace_and_comments() {
    let source = "a /* x */ + // y\n b";
    let tokens = lex(source);
    assert_eq!(&source[tokens[0].span.end..tokens[1].span.start], " /* x */ ");
    assert_eq!(&source[tokens[1].span.end..tokens[2].span.start], " // y\n ");
}

#[test]
fn tokenize_ends_with_one_eof() {
    let tokens = lex("a b c");
    assert_eq!(tokens.len(), 4);
    assert_eq!(tokens.iter().filter(|t| t.token_type == TokenType::Eof).count(), 1);
    assert_eq!(tokens[3].token_type, TokenType::Eof);
}

#[test]
fn tokenize_stops_at_the_first_error() {
    assert_eq!(
        first_error(b"a $ \"unclosed"),
        (ErrorKind::UnexpectedCharacter, Span::new(2, 3))
    );
}

#[test]
fn next_token_steps_match_tokenize() {
    let source = "x = y ** 2;";
    let mut lexer = Lexer::new("<test>", source.as_bytes());
    for expected in lex(source) {
        assert_eq!(lexer.next_token().unwrap(), expected);
        assert_eq!(lexer.position(), expected.span.end);
    }
}
