use regula::lexer::{tokenize, Lexer};
use regula::literal::{is_float, parse_int};
use regula::parser::{check_tokens, parse_source, Parser};
use regula::{ErrorKind, TokenType};

/// Every source of up to `length` bytes over `alphabet`.
fn sources(alphabet: &[u8], length: usize) -> Vec<Vec<u8>> {
    let mut all: Vec<Vec<u8>> = vec![vec![]];
    let mut last: Vec<Vec<u8>> = vec![vec![]];
    for _ in 0..length {
        let mut next = Vec::new();
        for s in &last {
            for &b in alphabet {
                let mut longer = s.clone();
                longer.push(b);
                next.push(longer);
            }
        }
        all.extend(next.iter().cloned());
        last = next;
    }
    all
}

fn check_lexing(source: &[u8]) {
    let mut lexer = Lexer::new("<sweep>", source);
    let mut at = 0;
    loop {
        assert_eq!(lexer.position(), at);
        match lexer.next_token() {
            Ok(token) => {
                assert!(at <= token.span.start, "{:?}", source);
                assert!(token.span.start <= token.span.end, "{:?}", source);
                assert!(token.span.end <= source.len(), "{:?}", source);
                assert_eq!(lexer.position(), token.span.end);
                assert_ne!(token.token_type, TokenType::Unknown);
                if token.token_type == TokenType::Eof {
                    assert_eq!(token.span.start, source.len());
                    assert_eq!(lexer.next_token().unwrap(), token);
                    break;
                }
                assert!(token.span.start < token.span.end, "{:?}", source);
                at = token.span.end;
            }
            Err(e) => {
                assert!(
                    e.kind == ErrorKind::UnclosedString || e.kind == ErrorKind::UnexpectedCharacter
                );
                assert!(at <= e.span.start && e.span.start < e.span.end, "{:?}", source);
                assert!(e.span.end <= source.len(), "{:?}", source);
                if e.kind == ErrorKind::UnclosedString {
                    assert_eq!(lexer.position(), e.span.start);
                } else {
                    assert_eq!(lexer.position(), e.span.end);
                }
                let first = tokenize("<sweep>", source).unwrap_err();
                assert_eq!((first.kind, first.span), (e.kind, e.span));
                assert!(!e.to_string().is_empty());
                break;
            }
        }
    }
}

#[test]
fn every_pair_of_bytes_lexes_in_bounds() {
    for a in 0..=255u8 {
        check_lexing(&[a]);
        for b in 0..=255u8 {
            check_lexing(&[a, b]);
        }
    }
}

#[test]
fn short_sources_lex_in_bounds() {
    for source in sources(b"a1 \n/*\"'\\.e+-=<&0x_\xC3\xA9\xE2@", 4) {
        check_lexing(&source);
    }
}

#[test]
fn short_sources_parse_or_fail_inside_the_source() {
    for source in sources(b"a1 ;+-*/(!)=:", 5) {
        match tokenize("<sweep>", &source) {
            Err(_) => {}
            Ok(tokens) => {
                assert!(check_tokens(&tokens, &source));
                let mut parser = Parser::new(&tokens, &source, String::from("<sweep>"));
                let parsed = parser.parse();
                let whole = parse_source("<sweep>", &source);
                match (parsed, whole) {
                    (Ok(a), Ok(b)) => {
                        assert_eq!(a.body, b.body);
                        assert_eq!(a.span, b.span);
                        assert_eq!(a.span.end, source.len());
                    }
                    (Err(a), Err(b)) => {
                        assert_eq!((a.kind, a.span), (b.kind, b.span));
                        assert!(a.span.start <= a.span.end && a.span.end <= source.len());
                        assert!(tokens.iter().any(|t| t.span == a.span));
                    }
                    (a, b) => panic!("{:?} and {:?} differ on {:?}", a.is_ok(), b.is_ok(), source),
                }
            }
        }
    }
}

#[test]
fn keywords_in_short_sources_parse_or_fail() {
    for words in sources(b"lcxi=:1;", 5) {
        let source: Vec<u8> = words
            .iter()
            .flat_map(|&b| match b {
                b'l' => b"let ".to_vec(),
                b'c' => b"const ".to_vec(),
                b'i' => b"int ".to_vec(),
                other => vec![other, b' '],
            })
            .collect();
        let result = parse_source("<sweep>", &source);
        if let Err(e) = result {
            assert!(e.span.start <= e.span.end && e.span.end <= source.len());
        }
    }
}

#[test]
fn number_texts_agree_with_the_standard_parsers() {
    for text in sources(b"01 9+-.eEinfa", 5) {
        let as_str = std::str::from_utf8(&text).unwrap();
        assert_eq!(parse_int(&text), as_str.parse::<i64>().ok(), "{:?}", as_str);
        assert_eq!(is_float(&text), as_str.parse::<f64>().is_ok(), "{:?}", as_str);
    }
}

#[test]
fn tokens_of_utf8_sources_are_utf8() {
    let source = "na\u{EF}ve + '\u{1F600}\\\u{E9}' + \u{540D}\u{524D}; // \u{2192}\n/* \u{E9} */ x;";
    let tokens = tokenize("<sweep>", source.as_bytes()).unwrap();
    for t in &tokens {
        assert!(source.is_char_boundary(t.span.start));
        assert!(source.is_char_boundary(t.span.end));
        let text = &source.as_bytes()[t.span.start..t.span.end];
        assert!(std::str::from_utf8(text).is_ok());
        if t.token_type == TokenType::String {
            assert!(std::str::from_utf8(&text[1..text.len() - 1]).is_ok());
        }
    }
    assert!(parse_source("<sweep>", source.as_bytes()).is_ok());
}
