use regula::bytes::{
    bytes_equal, classify, decode_char, has_class, width_of, CHAR_ASCII_ID_CONTINUE,
    CHAR_ASCII_ID_START, CHAR_BIN_DIGIT, CHAR_DEC_DIGIT, CHAR_DOUBLE_QUOTE, CHAR_DOUBLE_STOP,
    CHAR_ESCAPE, CHAR_HEX_DIGIT, CHAR_NEWLINE, CHAR_OCT_DIGIT, CHAR_QUOTE, CHAR_SINGLE_QUOTE,
    CHAR_SINGLE_STOP, CHAR_SYMBOL, CHAR_TABLE, CHAR_UTF8_START, CHAR_WHITESPACE,
};
use regula::lexer::scan_run;
use regula::symbols::symbol_rule;
use regula::{Span, TokenType};

#[test]
fn classes_of_every_byte() {
    for n in 0..=255u8 {
        let c = n as char;
        let b = n;
        assert_eq!(has_class(b, CHAR_DEC_DIGIT), c.is_ascii_digit(), "{}", n);
        assert_eq!(has_class(b, CHAR_BIN_DIGIT), b == b'0' || b == b'1', "{}", n);
        assert_eq!(has_class(b, CHAR_OCT_DIGIT), (b'0'..=b'7').contains(&b), "{}", n);
        assert_eq!(has_class(b, CHAR_HEX_DIGIT), n < 128 && c.is_ascii_hexdigit(), "{}", n);
        assert_eq!(
            has_class(b, CHAR_ASCII_ID_START),
            n < 128 && (c.is_ascii_alphabetic() || b == b'_'),
            "{}",
            n
        );
        assert_eq!(
            has_class(b, CHAR_ASCII_ID_CONTINUE),
            n < 128 && (c.is_ascii_alphanumeric() || b == b'_'),
            "{}",
            n
        );
        assert_eq!(has_class(b, CHAR_UTF8_START), (0xC0..=0xF5).contains(&b), "{}", n);
        assert_eq!(
            has_class(b, CHAR_SYMBOL),
            b"!%&()*+,-./:;<=>[]^{|}~".contains(&b),
            "{}",
            n
        );
        assert_eq!(has_class(b, CHAR_WHITESPACE), b"\t\n\x0B\x0C\r ".contains(&b), "{}", n);
        assert_eq!(has_class(b, CHAR_QUOTE), b == b'"' || b == b'\'', "{}", n);
        assert_eq!(has_class(b, CHAR_SINGLE_QUOTE), b == b'\'', "{}", n);
        assert_eq!(has_class(b, CHAR_DOUBLE_QUOTE), b == b'"', "{}", n);
        assert_eq!(has_class(b, CHAR_ESCAPE), b == b'\\', "{}", n);
        assert_eq!(has_class(b, CHAR_NEWLINE), b == b'\n', "{}", n);
        assert_eq!(has_class(b, CHAR_SINGLE_STOP), b"'\\\n".contains(&b), "{}", n);
        assert_eq!(has_class(b, CHAR_DOUBLE_STOP), b"\"\\\n".contains(&b), "{}", n);
        assert_eq!(classify(b), CHAR_TABLE[n as usize]);
    }
}

#[test]
fn class_values() {
    assert_eq!(classify(b'0'), 0x000F);
    assert_eq!(classify(b'9'), 0x0009);
    assert_eq!(classify(b'a'), 0x0018);
    assert_eq!(classify(b'z'), 0x0010);
    assert_eq!(classify(b'\n'), 0x1080);
    assert_eq!(classify(b'"'), 0x0500);
    assert_eq!(classify(b'\''), 0x0300);
    assert_eq!(classify(b'@'), 0);
    assert_eq!(classify(0xC3), 0x0020);
}

#[test]
fn every_symbol_byte_has_a_rule() {
    for b in 0..=255u8 {
        let rule = symbol_rule(b);
        assert_eq!(rule.max_len != 0, has_class(b, CHAR_SYMBOL), "{}", b);
        if rule.max_len != 0 {
            assert_ne!(rule.single, TokenType::Unknown);
        }
        if rule.max_len == 2 {
            assert_ne!(rule.double1, TokenType::Unknown);
            assert_ne!(rule.expect1, 0);
        }
    }
}

#[test]
fn rules_of_some_symbols() {
    let lt = symbol_rule(b'<');
    assert_eq!((lt.max_len, lt.expect1, lt.expect2), (2, b'=', b'<'));
    assert_eq!(
        (lt.single, lt.double1, lt.double2),
        (TokenType::Lt, TokenType::LtE, TokenType::BitwiseShl)
    );
    let plus = symbol_rule(b'+');
    assert_eq!((plus.max_len, plus.single), (1, TokenType::Plus));
    assert_eq!(symbol_rule(b'@').max_len, 0);
    assert_eq!(symbol_rule(b'a').max_len, 0);
}

#[test]
fn widths_of_lead_bytes() {
    assert_eq!(width_of(0x00), 1);
    assert_eq!(width_of(0x7F), 1);
    assert_eq!(width_of(0x80), 1);
    assert_eq!(width_of(0xBF), 1);
    assert_eq!(width_of(0xC0), 2);
    assert_eq!(width_of(0xDF), 2);
    assert_eq!(width_of(0xE0), 3);
    assert_eq!(width_of(0xEF), 3);
    assert_eq!(width_of(0xF0), 4);
    assert_eq!(width_of(0xFF), 4);
}

#[test]
fn decode_char_reads_each_width() {
    assert_eq!(decode_char(b"a", 0), Some('a'));
    assert_eq!(decode_char("\u{E9}".as_bytes(), 0), Some('\u{E9}'));
    assert_eq!(decode_char("\u{540D}".as_bytes(), 0), Some('\u{540D}'));
    assert_eq!(decode_char("\u{1F600}".as_bytes(), 0), Some('\u{1F600}'));
    assert_eq!(decode_char("x\u{E9}y".as_bytes(), 1), Some('\u{E9}'));
    assert_eq!(decode_char("x\u{E9}y".as_bytes(), 3), Some('y'));
}

#[test]
fn decode_char_agrees_with_the_standard_decoder() {
    let text = "a\u{7F}\u{80}\u{7FF}\u{800}\u{FFFF}\u{10000}\u{10FFFF}\u{D7FF}\u{E000}";
    for (at, c) in text.char_indices() {
        assert_eq!(decode_char(text.as_bytes(), at), Some(c));
        assert_eq!(width_of(text.as_bytes()[at]), c.len_utf8());
    }
}

#[test]
fn decode_char_yields_nothing_where_there_is_no_character() {
    assert_eq!(decode_char(b"", 0), None);
    assert_eq!(decode_char(b"a", 1), None);
    assert_eq!(decode_char(b"a", 9), None);
    assert_eq!(decode_char(&[0x80], 0), None);
    assert_eq!(decode_char(&[0xC3], 0), None);
    assert_eq!(decode_char(&[0xE4, 0xB8], 0), None);
    assert_eq!(decode_char(&[0xF0, 0x9F, 0x98], 0), None);
    // A surrogate, and a number beyond the last character.
    assert_eq!(decode_char(&[0xED, 0xA0, 0x80], 0), None);
    assert_eq!(decode_char(&[0xF7, 0xBF, 0xBF, 0xBF], 0), None);
}

#[test]
fn decode_char_reads_by_shape_alone() {
    // The second byte is no continuation byte; its low six bits count all the same.
    assert_eq!(decode_char(&[0xC3, 0x29], 0), Some('\u{E9}'));
}

#[test]
fn bytes_equal_compares_contents() {
    assert!(bytes_equal(b"", b""));
    assert!(bytes_equal(b"abc", b"abc"));
    assert!(!bytes_equal(b"abc", b"abd"));
    assert!(!bytes_equal(b"abc", b"ab"));
    assert!(!bytes_equal(b"", b"a"));
}

#[test]
fn scan_run_stops_at_the_first_byte_of_another_class() {
    assert_eq!(scan_run(b"123abc", 0, CHAR_DEC_DIGIT), 3);
    assert_eq!(scan_run(b"123abc", 3, CHAR_DEC_DIGIT), 3);
    assert_eq!(scan_run(b"123abc", 3, CHAR_ASCII_ID_CONTINUE), 6);
    assert_eq!(scan_run(b"123abc", 6, CHAR_DEC_DIGIT), 6);
    assert_eq!(scan_run(b"  \t\nx", 0, CHAR_WHITESPACE), 4);
    assert_eq!(scan_run(b"0129", 0, CHAR_OCT_DIGIT), 3);
    assert_eq!(scan_run(b"0129", 0, CHAR_BIN_DIGIT), 2);
    assert_eq!(scan_run(b"fFgG", 0, CHAR_HEX_DIGIT), 2);
}

#[test]
fn merge_is_the_bounding_range() {
    assert_eq!(Span::new(2, 5).merge(Span::new(7, 9)), Span::new(2, 9));
    assert_eq!(Span::new(7, 9).merge(Span::new(2, 5)), Span::new(2, 9));
    assert_eq!(Span::new(2, 9).merge(Span::new(3, 4)), Span::new(2, 9));
    assert_eq!(Span::new(3, 4).merge(Span::new(3, 4)), Span::new(3, 4));
    assert_eq!(Span::new(0, 0).merge(Span::new(4, 4)), Span::new(0, 4));
}

#[test]
fn span_new_keeps_both_ends() {
    let span = Span::new(3, 8);
    assert_eq!((span.start, span.end), (3, 8));
}
