//! Lexing well-formed text. The lexer reads bytes and takes any; where the
//! source is UTF-8, every token starts and ends between two characters, so the
//! text under every token is UTF-8 again.

use crate::bytes::{
    char_at, char_width, is_ascii_id_continue, is_ascii_id_start, is_dec_digit, is_quote,
    is_symbol, lemma_char_at_of_utf8, lemma_class_flags, BYTE_SLASH, CHAR_BIN_DIGIT,
    CHAR_DEC_DIGIT, CHAR_HEX_DIGIT, CHAR_OCT_DIGIT,
};
use crate::lexer::{
    byte_at, char_end, fraction_end, ident_end, lemma_lex_step, lemma_run_end_bounds,
    lemma_string_end_bounds, lemma_trivia_end_bounds, lex, lex_all, number_end, radix_at, run_end,
    token_fits, trivia_end, wide_continue,
};
use crate::parser::{spec_ident, spec_string, string_content};
use crate::symbols::lemma_symbols_have_rules;
use crate::token::{Token, TokenType};
use vstd::prelude::*;
use vstd::utf8::{
    is_char_boundary, is_continuation_byte, length_of_first_scalar, pop_first_scalar,
    valid_first_scalar, valid_utf8,
};

verus! {

/// Whether offset `pos` of `s` lies between two characters, as far as the
/// byte there tells: at the end, or at a byte that does not go on a character.
pub open spec fn on_boundary(s: Seq<u8>, pos: int) -> bool {
    0 <= pos <= s.len() && (pos < s.len() ==> !is_continuation_byte(s[pos]))
}

proof fn lemma_boundary(s: Seq<u8>, pos: int)
    requires
        valid_utf8(s),
        on_boundary(s, pos),
    ensures
        is_char_boundary(s, pos),
{
    if pos < s.len() {
        vstd::utf8::is_char_boundary_iff_not_is_continuation_byte(s, pos);
    } else {
        vstd::utf8::is_char_boundary_start_end_of_seq(s);
    }
}

/// In UTF-8, a character starts at every boundary before the end, and the
/// next boundary lies behind it.
pub proof fn lemma_next_boundary(s: Seq<u8>, pos: int)
    requires
        valid_utf8(s),
        on_boundary(s, pos),
        pos < s.len(),
    ensures
        valid_first_scalar(s.subrange(pos, s.len() as int)),
        on_boundary(s, pos + length_of_first_scalar(s.subrange(pos, s.len() as int))),
        char_at(s, pos) is Some,
        char_width(s[pos]) == length_of_first_scalar(s.subrange(pos, s.len() as int)),
{
    lemma_boundary(s, pos);
    vstd::utf8::valid_utf8_split(s, pos);
    let rest = s.subrange(pos, s.len() as int);
    let width = length_of_first_scalar(rest);
    let tail = pop_first_scalar(rest);
    assert(valid_first_scalar(rest) && valid_utf8(tail));
    lemma_char_at_of_utf8(s, pos);
    if pos + width < s.len() {
        assert(tail[0] == s[pos + width]);
        assert(valid_first_scalar(tail));
    }
}

/// In UTF-8, a boundary lies behind every byte below `0x80`.
pub proof fn lemma_boundary_after_ascii(s: Seq<u8>, pos: int)
    requires
        valid_utf8(s),
        0 < pos <= s.len(),
        s[pos - 1] < 0x80,
    ensures
        on_boundary(s, pos),
{
    lemma_next_boundary(s, pos - 1);
}

/// In UTF-8, what lies between two boundaries is UTF-8.
pub proof fn lemma_between_boundaries(s: Seq<u8>, from: int, to: int)
    requires
        valid_utf8(s),
        on_boundary(s, from),
        on_boundary(s, to),
        from <= to,
    ensures
        valid_utf8(s.subrange(from, to)),
{
    lemma_boundary(s, from);
    vstd::utf8::valid_utf8_split(s, from);
    let rest = s.subrange(from, s.len() as int);
    if to < s.len() {
        assert(rest[to - from] == s[to]);
    }
    lemma_boundary(rest, to - from);
    vstd::utf8::valid_utf8_split(rest, to - from);
    assert(rest.subrange(0, to - from) =~= s.subrange(from, to));
}

proof fn lemma_ident_end_boundary(s: Seq<u8>, pos: int)
    requires
        valid_utf8(s),
        on_boundary(s, pos),
    ensures
        on_boundary(s, ident_end(s, pos)),
    decreases s.len() - pos,
{
    if pos < s.len() {
        lemma_next_boundary(s, pos);
        if is_ascii_id_continue(s[pos]) {
            lemma_ident_end_boundary(s, pos + 1);
        } else if wide_continue(s, pos) {
            lemma_ident_end_boundary(s, pos + char_width(s[pos]));
        }
    }
}

proof fn lemma_digits_are_ascii(s: Seq<u8>, pos: int, mask: u16)
    requires
        0 <= pos <= s.len(),
        mask == CHAR_DEC_DIGIT || mask == CHAR_BIN_DIGIT || mask == CHAR_OCT_DIGIT || mask
            == CHAR_HEX_DIGIT,
    ensures
        pos <= run_end(s, pos, mask) <= s.len(),
        forall|i: int| pos <= i < run_end(s, pos, mask) ==> #[trigger] s[i] < 0x80,
{
    lemma_run_end_bounds(s, pos, mask);
    assert forall|i: int| pos <= i < run_end(s, pos, mask) implies #[trigger] s[i] < 0x80 by {
        lemma_class_flags(s[i]);
    }
}

proof fn lemma_number_is_ascii(s: Seq<u8>, pos: int)
    requires
        0 <= pos < s.len(),
        is_dec_digit(s[pos]),
    ensures
        pos < number_end(s, pos).1 <= s.len(),
        s[number_end(s, pos).1 - 1] < 0x80,
{
    crate::lexer::lemma_number_end_bounds(s, pos);
    match radix_at(s, pos) {
        Some(mask) => {
            lemma_digits_are_ascii(s, pos + 2, mask);
        },
        None => {
            lemma_digits_are_ascii(s, pos, CHAR_DEC_DIGIT);
            let digits = run_end(s, pos, CHAR_DEC_DIGIT);
            if digits < s.len() {
                lemma_digits_are_ascii(s, digits + 1, CHAR_DEC_DIGIT);
            }
            let mantissa = match fraction_end(s, digits) {
                Some(end) => end,
                None => digits,
            };
            if mantissa < s.len() {
                lemma_digits_are_ascii(s, mantissa + 1, CHAR_DEC_DIGIT);
                if mantissa + 1 < s.len() {
                    lemma_digits_are_ascii(s, mantissa + 2, CHAR_DEC_DIGIT);
                }
            }
        },
    }
}

/// Whether the text under `token` is UTF-8, and for a string literal also
/// the text between its quotes.
pub open spec fn token_is_text(s: Seq<u8>, token: Token) -> bool {
    let text = s.subrange(token.span.start as int, token.span.end as int);
    &&& valid_utf8(text)
    &&& token.token_type == TokenType::String ==> text.len() >= 2 && valid_utf8(
        string_content(text),
    )
}

/// Where the source is UTF-8, a token starts and ends on a boundary, and the
/// text under it is UTF-8.
pub proof fn lemma_token_is_text(s: Seq<u8>, pos: int)
    requires
        valid_utf8(s),
        0 <= pos <= s.len() <= usize::MAX,
        lex(s, pos).0 is Ok,
    ensures
        on_boundary(s, lex(s, pos).0.unwrap().span.start as int),
        on_boundary(s, lex(s, pos).0.unwrap().span.end as int),
        token_is_text(s, lex(s, pos).0.unwrap()),
{
    reveal(token_fits);
    lemma_lex_step(s, pos);
    lemma_trivia_end_bounds(s, pos);
    let p = trivia_end(s, pos);
    let token = lex(s, pos).0.unwrap();
    let end = lex(s, pos).1;
    if p < s.len() {
        let b = s[p];
        if b == BYTE_SLASH {
            lemma_boundary_after_ascii(s, end);
        } else if is_symbol(b) {
            lemma_symbols_have_rules(b, byte_at(s, p + 1));
            crate::symbols::lemma_symbol_spelling(b, byte_at(s, p + 1));
            lemma_boundary_after_ascii(s, p + 1);
            if end == p + 2 {
                lemma_boundary_after_ascii(s, end);
            }
        } else if is_dec_digit(b) {
            lemma_number_is_ascii(s, p);
            lemma_boundary_after_ascii(s, end);
        } else if is_ascii_id_start(b) {
            lemma_next_boundary(s, p);
            lemma_ident_end_boundary(s, char_end(s, p));
        } else if is_quote(b) {
            lemma_string_end_bounds(s, p + 1, b);
            lemma_boundary_after_ascii(s, p + 1);
            lemma_boundary_after_ascii(s, end);
            lemma_between_boundaries(s, p + 1, end - 1);
            let text = s.subrange(p, end);
            assert(string_content(text) =~= s.subrange(p + 1, end - 1));
        } else {
            lemma_next_boundary(s, p);
            lemma_ident_end_boundary(s, char_end(s, p));
        }
        lemma_between_boundaries(s, p, end);
    } else {
        lemma_between_boundaries(s, p, p);
    }
}

/// Where a UTF-8 source lexes, the text under each of its tokens is UTF-8.
pub proof fn lemma_lexed_tokens_are_text(s: Seq<u8>, pos: int)
    requires
        valid_utf8(s),
        0 <= pos <= s.len() <= usize::MAX,
        lex_all(s, pos) is Ok,
    ensures
        forall|i: int|
            0 <= i < lex_all(s, pos).unwrap().len() ==> token_is_text(
                s,
                #[trigger] lex_all(s, pos).unwrap()[i],
            ),
    decreases s.len() - pos,
{
    lemma_lex_step(s, pos);
    lemma_token_is_text(s, pos);
    let token = lex(s, pos).0.unwrap();
    let tokens = lex_all(s, pos).unwrap();
    if token.token_type != TokenType::Eof {
        let next = lex(s, pos).1;
        lemma_lexed_tokens_are_text(s, next);
        let rest = lex_all(s, next).unwrap();
        assert forall|i: int| 0 <= i < tokens.len() implies token_is_text(
            s,
            #[trigger] tokens[i],
        ) by {
            if i > 0 {
                assert(tokens[i] == rest[i - 1]);
            }
        }
    }
}

/// Where a UTF-8 source lexes, each of its identifiers and string literals
/// parses: no identifier and no string of the lexer is refused for its text.
pub proof fn lemma_lexed_names_parse(s: Seq<u8>, i: int)
    requires
        valid_utf8(s),
        s.len() <= usize::MAX,
        lex_all(s, 0) is Ok,
        0 <= i < lex_all(s, 0).unwrap().len(),
    ensures
        lex_all(s, 0).unwrap()[i].token_type == TokenType::Identifier ==> spec_ident(
            lex_all(s, 0).unwrap(),
            s,
            i,
        ) is Ok,
        lex_all(s, 0).unwrap()[i].token_type == TokenType::String ==> spec_string(
            lex_all(s, 0).unwrap(),
            s,
            i,
        ) is Ok,
{
    lemma_lexed_tokens_are_text(s, 0);
    let tokens = lex_all(s, 0).unwrap();
    assert(token_is_text(s, tokens[i]));
}

} // verus!
