//! The lexer: source bytes in, one token per call out.
//!
//! What a call yields is laid down by [`lex`], a function of the source and of
//! the offset at which the call starts: the token or the error, and the offset
//! at which the next call starts.

use crate::assumed::{xid_continue, xid_start};
use crate::bytes::{
    bytes_equal, char_at, char_width, classify, decode_char, has_class, in_class,
    is_ascii_id_continue, is_ascii_id_start, is_dec_digit, is_quote, is_symbol, is_utf8_start,
    lemma_class_flags, width_of, BYTE_DOT, BYTE_DOUBLE_QUOTE, BYTE_MINUS, BYTE_NEWLINE, BYTE_PLUS,
    BYTE_SLASH, BYTE_STAR, BYTE_ZERO, CHAR_ASCII_ID_CONTINUE, CHAR_ASCII_ID_START, CHAR_BIN_DIGIT,
    CHAR_DEC_DIGIT, CHAR_DOUBLE_STOP, CHAR_ESCAPE, CHAR_DOUBLE_QUOTE, CHAR_HEX_DIGIT,
    CHAR_OCT_DIGIT, CHAR_QUOTE, CHAR_SINGLE_QUOTE, CHAR_SINGLE_STOP, CHAR_SYMBOL, CHAR_UTF8_START,
    CHAR_WHITESPACE,
};
use crate::error::{CompilerError, ErrorKind};
use crate::span::Span;
use crate::symbols::{lemma_symbols_have_rules, symbol_rule, symbol_token};
use crate::token::{tokens_ordered, Token, TokenType};
use branches::{likely, unlikely};
use unicode_ident::{is_xid_continue, is_xid_start};
use vstd::prelude::*;
use vstd::slice::slice_subrange;
use vstd::string::StringSliceAdditionalSpecFns;

verus! {

/// What one step of the lexer yields: a token, or the kind and span of an error.
pub type Outcome = Result<Token, (ErrorKind, Span)>;

/// The span from `start` to `end`.
pub open spec fn span_of(start: int, end: int) -> Span {
    Span { start: start as usize, end: end as usize }
}

/// The token of kind `kind` from `start` to `end`.
pub open spec fn token_of(kind: TokenType, start: int, end: int) -> Token {
    Token { token_type: kind, span: span_of(start, end) }
}

/// The byte at `pos`, if `pos` lies inside `s`.
pub open spec fn byte_at(s: Seq<u8>, pos: int) -> Option<u8> {
    if 0 <= pos < s.len() {
        Some(s[pos])
    } else {
        None
    }
}

/// Where the run of bytes of class `mask` that starts at `pos` ends: the
/// first offset from `pos` on whose byte is not of that class, or the end of `s`.
pub open spec fn run_end(s: Seq<u8>, pos: int, mask: u16) -> int
    decreases s.len() - pos,
{
    if 0 <= pos < s.len() && in_class(s[pos], mask) {
        run_end(s, pos + 1, mask)
    } else {
        pos
    }
}

/// Where a `//` comment whose text starts at `pos` ends: at the next line
/// feed, which is not part of it, or at the end of `s`.
pub open spec fn line_comment_end(s: Seq<u8>, pos: int) -> int
    decreases s.len() - pos,
{
    if 0 <= pos < s.len() && s[pos] != BYTE_NEWLINE {
        line_comment_end(s, pos + 1)
    } else {
        pos
    }
}

/// Where a `/*` comment whose text starts at `pos` ends: behind the first
/// `*/`, or at the end of `s` where there is none. Comments do not nest.
pub open spec fn block_comment_end(s: Seq<u8>, pos: int) -> int
    decreases s.len() - pos,
{
    if pos < 0 || pos >= s.len() {
        s.len() as int
    } else if s[pos] == BYTE_STAR && byte_at(s, pos + 1) == Some(BYTE_SLASH) {
        pos + 2
    } else {
        block_comment_end(s, pos + 1)
    }
}

/// A run ends at the first byte behind its start that is not of its class,
/// or at the end of the source where there is none.
pub proof fn lemma_run_end_bounds(s: Seq<u8>, pos: int, mask: u16)
    requires
        0 <= pos <= s.len(),
    ensures
        pos <= run_end(s, pos, mask) <= s.len(),
        forall|i: int| pos <= i < run_end(s, pos, mask) ==> in_class(#[trigger] s[i], mask),
        byte_at(s, run_end(s, pos, mask)) matches Some(b) ==> !in_class(b, mask),
    decreases s.len() - pos,
{
    if pos < s.len() && in_class(s[pos], mask) {
        lemma_run_end_bounds(s, pos + 1, mask);
    }
}

/// A `//` comment ends at the first line feed behind its start, or at the
/// end of the source where there is none.
pub proof fn lemma_line_comment_end_bounds(s: Seq<u8>, pos: int)
    requires
        0 <= pos <= s.len(),
    ensures
        pos <= line_comment_end(s, pos) <= s.len(),
        forall|i: int| pos <= i < line_comment_end(s, pos) ==> #[trigger] s[i] != BYTE_NEWLINE,
        byte_at(s, line_comment_end(s, pos)) matches Some(b) ==> b == BYTE_NEWLINE,
    decreases s.len() - pos,
{
    if pos < s.len() && s[pos] != BYTE_NEWLINE {
        lemma_line_comment_end_bounds(s, pos + 1);
    }
}

/// Whether a `*/` starts at `pos`.
pub open spec fn closes_at(s: Seq<u8>, pos: int) -> bool {
    byte_at(s, pos) == Some(BYTE_STAR) && byte_at(s, pos + 1) == Some(BYTE_SLASH)
}

/// A `/*` comment ends behind the first `*/` behind its start, or at the end
/// of the source where there is none.
pub proof fn lemma_block_comment_end_bounds(s: Seq<u8>, pos: int)
    requires
        0 <= pos <= s.len(),
    ensures
        pos <= block_comment_end(s, pos) <= s.len(),
        forall|i: int| pos <= i < block_comment_end(s, pos) - 2 ==> !closes_at(s, i),
        closes_at(s, block_comment_end(s, pos) - 2) && pos + 2 <= block_comment_end(s, pos) || {
            &&& block_comment_end(s, pos) == s.len()
            &&& forall|i: int| pos <= i ==> !closes_at(s, i)
        },
    decreases s.len() - pos,
{
    if pos < s.len() && !(s[pos] == BYTE_STAR && byte_at(s, pos + 1) == Some(BYTE_SLASH)) {
        lemma_block_comment_end_bounds(s, pos + 1);
    }
}

/// Where the whitespace and the comments that start at `pos` end: the offset
/// of the first byte that is neither whitespace nor the start of a comment, or
/// the end of `s`.
pub open spec fn trivia_end(s: Seq<u8>, pos: int) -> int
    decreases s.len() - pos,
    via trivia_end_decreases
{
    if pos < 0 || pos > s.len() {
        pos
    } else {
        let p = run_end(s, pos, CHAR_WHITESPACE);
        if byte_at(s, p) == Some(BYTE_SLASH) && byte_at(s, p + 1) == Some(BYTE_SLASH) {
            trivia_end(s, line_comment_end(s, p + 2))
        } else if byte_at(s, p) == Some(BYTE_SLASH) && byte_at(s, p + 1) == Some(BYTE_STAR) {
            trivia_end(s, block_comment_end(s, p + 2))
        } else {
            p
        }
    }
}

#[via_fn]
proof fn trivia_end_decreases(s: Seq<u8>, pos: int) {
    if 0 <= pos <= s.len() {
        lemma_run_end_bounds(s, pos, CHAR_WHITESPACE);
        let p = run_end(s, pos, CHAR_WHITESPACE);
        if p + 2 <= s.len() {
            lemma_line_comment_end_bounds(s, p + 2);
            lemma_block_comment_end_bounds(s, p + 2);
        }
    }
}

/// Whitespace and comments end inside the source, and none starts where they end.
pub proof fn lemma_trivia_end_bounds(s: Seq<u8>, pos: int)
    requires
        0 <= pos <= s.len(),
    ensures
        pos <= trivia_end(s, pos) <= s.len(),
        trivia_end(s, trivia_end(s, pos)) == trivia_end(s, pos),
    decreases s.len() - pos,
{
    lemma_run_end_bounds(s, pos, CHAR_WHITESPACE);
    let p = run_end(s, pos, CHAR_WHITESPACE);
    if byte_at(s, p) == Some(BYTE_SLASH) && byte_at(s, p + 1) == Some(BYTE_SLASH) {
        lemma_line_comment_end_bounds(s, p + 2);
        lemma_trivia_end_bounds(s, line_comment_end(s, p + 2));
    } else if byte_at(s, p) == Some(BYTE_SLASH) && byte_at(s, p + 1) == Some(BYTE_STAR) {
        lemma_block_comment_end_bounds(s, p + 2);
        lemma_trivia_end_bounds(s, block_comment_end(s, p + 2));
    } else {
        lemma_run_end_bounds(s, p, CHAR_WHITESPACE);
    }
}

/// The digit class that a radix letter behind a leading `0` selects:
/// `b`/`B` binary, `o`/`O` octal, `x`/`X` hexadecimal.
pub open spec fn radix_mask(b: u8) -> Option<u16> {
    if b == 0x62 || b == 0x42 {
        Some(CHAR_BIN_DIGIT)
    } else if b == 0x6F || b == 0x4F {
        Some(CHAR_OCT_DIGIT)
    } else if b == 0x78 || b == 0x58 {
        Some(CHAR_HEX_DIGIT)
    } else {
        None
    }
}

/// Where the fraction that starts at `pos` ends: a `.` and the digits behind
/// it. Nothing where there is no `.` at `pos`.
pub open spec fn fraction_end(s: Seq<u8>, pos: int) -> Option<int> {
    if byte_at(s, pos) == Some(BYTE_DOT) {
        Some(run_end(s, pos + 1, CHAR_DEC_DIGIT))
    } else {
        None
    }
}

/// Where the exponent that starts at `pos` ends: `e` or `E`, a sign if there
/// is one, and the digits behind it. Nothing where there is no `e` at `pos`.
pub open spec fn exponent_end(s: Seq<u8>, pos: int) -> Option<int> {
    if byte_at(s, pos) == Some(0x65u8) || byte_at(s, pos) == Some(0x45u8) {
        if byte_at(s, pos + 1) == Some(BYTE_PLUS) || byte_at(s, pos + 1) == Some(BYTE_MINUS) {
            Some(run_end(s, pos + 2, CHAR_DEC_DIGIT))
        } else {
            Some(run_end(s, pos + 1, CHAR_DEC_DIGIT))
        }
    } else {
        None
    }
}

/// The kind and the end of the decimal number at `pos`: digits, then a
/// fraction if there is one, then an exponent if there is one. A fraction or
/// an exponent makes it a float.
pub open spec fn decimal_end(s: Seq<u8>, pos: int) -> (TokenType, int) {
    let digits = run_end(s, pos, CHAR_DEC_DIGIT);
    let (kind, mantissa) = match fraction_end(s, digits) {
        Some(end) => (TokenType::Float, end),
        None => (TokenType::Int, digits),
    };
    match exponent_end(s, mantissa) {
        Some(end) => (TokenType::Float, end),
        None => (kind, mantissa),
    }
}

/// The digit class of the number at `pos`, where it starts with `0` and a
/// radix letter.
pub open spec fn radix_at(s: Seq<u8>, pos: int) -> Option<u16> {
    if byte_at(s, pos) == Some(BYTE_ZERO) {
        match byte_at(s, pos + 1) {
            Some(b) => radix_mask(b),
            None => None,
        }
    } else {
        None
    }
}

/// The kind and the end of the number at `pos`. A `0` with a radix letter
/// behind it is an integer that runs over the digits of that radix; any other
/// number is decimal.
pub open spec fn number_end(s: Seq<u8>, pos: int) -> (TokenType, int) {
    match radix_at(s, pos) {
        Some(mask) => (TokenType::Int, run_end(s, pos + 2, mask)),
        None => decimal_end(s, pos),
    }
}

/// Whether the bytes at `pos` are a character wider than one byte that may
/// stand inside an identifier.
pub open spec fn wide_continue(s: Seq<u8>, pos: int) -> bool {
    &&& byte_at(s, pos) matches Some(b)
    &&& is_utf8_start(b)
    &&& char_at(s, pos) matches Some(c)
    &&& xid_continue(c)
}

/// Where the identifier whose characters go on at `pos` ends: in front of the
/// first character that may not stand inside an identifier.
pub open spec fn ident_end(s: Seq<u8>, pos: int) -> int
    decreases s.len() - pos,
{
    if pos < 0 || pos >= s.len() {
        pos
    } else if is_ascii_id_continue(s[pos]) {
        ident_end(s, pos + 1)
    } else if wide_continue(s, pos) {
        ident_end(s, pos + char_width(s[pos]))
    } else {
        pos
    }
}

/// The offset behind the character at `pos`, but never beyond the end of `s`.
pub open spec fn char_end(s: Seq<u8>, pos: int) -> int {
    if pos + char_width(s[pos]) <= s.len() {
        pos + char_width(s[pos])
    } else {
        s.len() as int
    }
}

/// The kind of the word `text`: that of the keyword it spells, or `Identifier`.
pub open spec fn keyword_kind(text: Seq<u8>) -> TokenType {
    if text == "let".spec_bytes() {
        TokenType::Let
    } else if text == "const".spec_bytes() {
        TokenType::Const
    } else if text == "struct".spec_bytes() {
        TokenType::Struct
    } else if text == "impl".spec_bytes() {
        TokenType::Impl
    } else if text == "enum".spec_bytes() {
        TokenType::Enum
    } else if text == "mut".spec_bytes() {
        TokenType::Mut
    } else if text == "if".spec_bytes() {
        TokenType::If
    } else if text == "else".spec_bytes() {
        TokenType::Else
    } else if text == "while".spec_bytes() {
        TokenType::While
    } else if text == "for".spec_bytes() {
        TokenType::For
    } else if text == "in".spec_bytes() {
        TokenType::In
    } else if text == "func".spec_bytes() {
        TokenType::Func
    } else if text == "return".spec_bytes() {
        TokenType::Return
    } else if text == "loop".spec_bytes() {
        TokenType::Loop
    } else if text == "break".spec_bytes() {
        TokenType::Break
    } else if text == "continue".spec_bytes() {
        TokenType::Continue
    } else if text == "match".spec_bytes() {
        TokenType::Match
    } else if text == "import".spec_bytes() {
        TokenType::Import
    } else if text == "true".spec_bytes() {
        TokenType::True
    } else if text == "false".spec_bytes() {
        TokenType::False
    } else if text == "None".spec_bytes() {
        TokenType::NoneKeyword
    } else if text == "int".spec_bytes() {
        TokenType::TypeInt
    } else if text == "float".spec_bytes() {
        TokenType::TypeFloat
    } else if text == "string".spec_bytes() {
        TokenType::TypeString
    } else if text == "bool".spec_bytes() {
        TokenType::TypeBoolean
    } else {
        TokenType::Identifier
    }
}

/// How the string literal that goes on at `pos` ends. `Ok(end)` where the
/// quote `quote` closes it just before `end`; `Err(end)` where a line feed at
/// `end`, or the end of `s`, comes first. A `\` and the byte behind it are
/// passed over together.
pub open spec fn string_end(s: Seq<u8>, pos: int, quote: u8) -> Result<int, int>
    decreases s.len() - pos + 1,
{
    if pos < 0 || pos >= s.len() {
        Err(s.len() as int)
    } else if s[pos] == quote {
        Ok(pos + 1)
    } else if s[pos] == 0x5Cu8 {
        string_end(s, pos + 2, quote)
    } else if s[pos] == BYTE_NEWLINE {
        Err(pos)
    } else {
        string_end(s, pos + 1, quote)
    }
}

/// The operator or punctuation mark at `pos`.
pub open spec fn lex_symbol(s: Seq<u8>, pos: int) -> (Outcome, int) {
    match symbol_token(s[pos], byte_at(s, pos + 1)) {
        Some((kind, len)) => (Ok(token_of(kind, pos, pos + len)), pos + len),
        None => (Err((ErrorKind::UnexpectedCharacter, span_of(pos, pos))), pos),
    }
}

/// The number at `pos`.
pub open spec fn lex_number(s: Seq<u8>, pos: int) -> (Outcome, int) {
    let (kind, end) = number_end(s, pos);
    (Ok(token_of(kind, pos, end)), end)
}

/// The identifier or keyword whose first character is at `pos`.
pub open spec fn lex_identifier(s: Seq<u8>, pos: int) -> (Outcome, int) {
    let end = ident_end(s, char_end(s, pos));
    (Ok(token_of(keyword_kind(s.subrange(pos, end)), pos, end)), end)
}

/// The string literal whose opening quote is at `pos`. One that is not closed
/// on its line is an error, and the lexer stays at the opening quote.
pub open spec fn lex_string(s: Seq<u8>, pos: int) -> (Outcome, int) {
    match string_end(s, pos + 1, s[pos]) {
        Ok(end) => (Ok(token_of(TokenType::String, pos, end)), end),
        Err(end) => (Err((ErrorKind::UnclosedString, span_of(pos, end))), pos),
    }
}

/// Whether the character `c` may begin an identifier: below `0x80` a letter,
/// from there on a character with the property XID_Start.
pub open spec fn starts_identifier(c: char) -> bool {
    if (c as u32) < 0x80 {
        0x41 <= (c as u32) <= 0x5A || 0x61 <= (c as u32) <= 0x7A
    } else {
        xid_start(c)
    }
}

/// Whether the character at `pos` may begin an identifier.
pub open spec fn wide_start(s: Seq<u8>, pos: int) -> bool {
    char_at(s, pos) matches Some(c) && starts_identifier(c)
}

/// What begins at `pos` with a byte of none of the single-byte classes: an
/// identifier where `is_start` holds; otherwise the character is passed over
/// and reported.
pub open spec fn lex_other(s: Seq<u8>, pos: int, is_start: bool) -> (Outcome, int) {
    if is_start {
        lex_identifier(s, pos)
    } else {
        (Err((ErrorKind::UnexpectedCharacter, span_of(pos, char_end(s, pos)))), char_end(s, pos))
    }
}

/// What begins at `pos`, where `pos` lies inside `s` and no whitespace or
/// comment starts there.
pub open spec fn lex_at(s: Seq<u8>, pos: int) -> (Outcome, int) {
    let b = s[pos];
    if b == BYTE_SLASH {
        (Ok(token_of(TokenType::Slash, pos, pos + 1)), pos + 1)
    } else if is_symbol(b) {
        lex_symbol(s, pos)
    } else if is_dec_digit(b) {
        lex_number(s, pos)
    } else if is_ascii_id_start(b) {
        lex_identifier(s, pos)
    } else if is_quote(b) {
        lex_string(s, pos)
    } else {
        lex_other(s, pos, wide_start(s, pos))
    }
}

/// One step of the lexer from offset `pos`: what it yields, and the offset at
/// which the next step starts. Whitespace and comments are passed over first;
/// at the end of the source the step yields `Eof` and stays there.
pub open spec fn lex(s: Seq<u8>, pos: int) -> (Outcome, int) {
    let p = trivia_end(s, pos);
    if p >= s.len() {
        (Ok(token_of(TokenType::Eof, p, p)), p)
    } else {
        lex_at(s, p)
    }
}

/// Moves `pos` forward by `n` bytes.
fn advance(pos: &mut usize, n: usize)
    requires
        *old(pos) + n <= usize::MAX,
    ensures
        *final(pos) == *old(pos) + n,
{
    *pos += n;
}

/// The end of the run of bytes of class `mask` that starts at `pos`.
pub fn scan_run(input: &[u8], pos: usize, mask: u16) -> (end: usize)
    requires
        pos <= input@.len(),
    ensures
        end == run_end(input@, pos as int, mask),
        pos <= end <= input@.len(),
{
    let len = input.len();
    let mut end = pos;
    while likely(end < len) && has_class(input[end], mask)
        invariant
            len == input@.len(),
            pos <= end <= len,
            run_end(input@, end as int, mask) == run_end(input@, pos as int, mask),
        decreases len - end,
    {
        advance(&mut end, 1);
    }
    end
}

/// Whether the character `c` may begin an identifier.
fn begins_identifier(c: char) -> (r: bool)
    ensures
        r == starts_identifier(c),
{
    is_xid_start(c)
}

/// The digit class that the radix letter `b` selects.
fn radix_of(b: u8) -> (r: Option<u16>)
    ensures
        r == radix_mask(b),
{
    if b == 0x62 || b == 0x42 {
        Some(CHAR_BIN_DIGIT)
    } else if b == 0x6F || b == 0x4F {
        Some(CHAR_OCT_DIGIT)
    } else if b == 0x78 || b == 0x58 {
        Some(CHAR_HEX_DIGIT)
    } else {
        None
    }
}

/// The kind of the word `text`: that of the keyword it spells, or `Identifier`.
pub fn keyword(text: &[u8]) -> (kind: TokenType)
    ensures
        kind == keyword_kind(text@),
{
    if bytes_equal(text, "let".as_bytes()) {
        TokenType::Let
    } else if bytes_equal(text, "const".as_bytes()) {
        TokenType::Const
    } else if bytes_equal(text, "struct".as_bytes()) {
        TokenType::Struct
    } else if bytes_equal(text, "impl".as_bytes()) {
        TokenType::Impl
    } else if bytes_equal(text, "enum".as_bytes()) {
        TokenType::Enum
    } else if bytes_equal(text, "mut".as_bytes()) {
        TokenType::Mut
    } else if bytes_equal(text, "if".as_bytes()) {
        TokenType::If
    } else if bytes_equal(text, "else".as_bytes()) {
        TokenType::Else
    } else if bytes_equal(text, "while".as_bytes()) {
        TokenType::While
    } else if bytes_equal(text, "for".as_bytes()) {
        TokenType::For
    } else if bytes_equal(text, "in".as_bytes()) {
        TokenType::In
    } else if bytes_equal(text, "func".as_bytes()) {
        TokenType::Func
    } else if bytes_equal(text, "return".as_bytes()) {
        TokenType::Return
    } else if bytes_equal(text, "loop".as_bytes()) {
        TokenType::Loop
    } else if bytes_equal(text, "break".as_bytes()) {
        TokenType::Break
    } else if bytes_equal(text, "continue".as_bytes()) {
        TokenType::Continue
    } else if bytes_equal(text, "match".as_bytes()) {
        TokenType::Match
    } else if bytes_equal(text, "import".as_bytes()) {
        TokenType::Import
    } else if bytes_equal(text, "true".as_bytes()) {
        TokenType::True
    } else if bytes_equal(text, "false".as_bytes()) {
        TokenType::False
    } else if bytes_equal(text, "None".as_bytes()) {
        TokenType::NoneKeyword
    } else if bytes_equal(text, "int".as_bytes()) {
        TokenType::TypeInt
    } else if bytes_equal(text, "float".as_bytes()) {
        TokenType::TypeFloat
    } else if bytes_equal(text, "string".as_bytes()) {
        TokenType::TypeString
    } else if bytes_equal(text, "bool".as_bytes()) {
        TokenType::TypeBoolean
    } else {
        TokenType::Identifier
    }
}

/// Where an identifier goes on behind the wide character at `pos`, which is
/// `width` bytes wide, given whether that character may stand inside an
/// identifier: behind the character, or nowhere.
pub fn wide_step(pos: usize, width: usize, continues: bool) -> (r: Option<usize>)
    requires
        continues ==> pos + width <= usize::MAX,
    ensures
        r == (if continues {
            Some((pos + width) as usize)
        } else {
            None::<usize>
        }),
{
    if continues {
        Some(pos + width)
    } else {
        None
    }
}

/// A lexer over a borrowed source buffer. It keeps the offset at which the
/// next token is looked for, and hands out one token per call.
#[derive(Debug)]
pub struct Lexer<'a> {
    input: &'a [u8],
    input_len: usize,
    filename: &'a str,
    pos: usize,
}

impl<'a> Lexer<'a> {
    #[verifier::type_invariant]
    spec fn well_formed(&self) -> bool {
        self.input_len == self.input@.len() && self.pos <= self.input_len
    }

    /// The source that is being read.
    pub closed spec fn source(&self) -> Seq<u8> {
        self.input@
    }

    /// The name of the file that the source came from.
    pub closed spec fn file(&self) -> Seq<char> {
        self.filename@
    }

    /// The offset at which the next token is looked for.
    pub closed spec fn offset(&self) -> int {
        self.pos as int
    }

    /// Whether `self` is `before` after one step `step`, and `r` what that
    /// step yields: the token itself, or an error of the kind and span given
    /// that carries the source and the file name.
    pub open spec fn stepped(
        &self,
        before: Self,
        r: Result<Token, CompilerError>,
        step: (Outcome, int),
    ) -> bool {
        &&& self.source() == before.source()
        &&& self.file() == before.file()
        &&& self.offset() == step.1
        &&& match step.0 {
            Ok(token) => r == Ok::<Token, CompilerError>(token),
            Err((kind, span)) => {
                &&& r matches Err(e)
                &&& e.kind == kind
                &&& e.span == span
                &&& e.input@ == before.source()
                &&& e.filename@ == before.file()
            },
        }
    }

    /// A lexer at the start of `input`.
    pub fn new(filename: &'a str, input: &'a [u8]) -> (lexer: Self)
        ensures
            lexer.source() == input@,
            lexer.file() == filename@,
            lexer.offset() == 0,
    {
        Lexer { filename, input_len: input.len(), input, pos: 0 }
    }

    /// The offset at which the next token is looked for.
    pub fn position(&self) -> (pos: usize)
        ensures
            pos == self.offset(),
            pos <= self.source().len(),
    {
        proof {
            use_type_invariant(self);
        }
        self.pos
    }

    /// The next token, or the first error on the way to it.
    pub fn next_token(&mut self) -> (r: Result<Token, CompilerError>)
        ensures
            final(self).stepped(*old(self), r, lex(old(self).source(), old(self).offset())),
    {
        proof {
            use_type_invariant(&*self);
        }
        let mut pos = self.pos;
        loop
            invariant
                *self == *old(self),
                self.input_len == self.input@.len(),
                pos <= self.input_len,
                trivia_end(self.input@, pos as int) == trivia_end(
                    self.input@,
                    old(self).pos as int,
                ),
            ensures
                *self == *old(self),
                pos < self.input_len,
                self.input@[pos as int] != BYTE_SLASH,
                trivia_end(self.input@, old(self).pos as int) == pos,
            decreases self.input_len - pos,
        {
            let ghost from = pos;
            pos = self.read_bytes(pos, CHAR_WHITESPACE);
            proof {
                lemma_run_end_bounds(self.input@, from as int, CHAR_WHITESPACE);
            }
            if unlikely(pos >= self.input_len) {
                self.pos = pos;
                return Ok(Token::new(TokenType::Eof, Span::new(pos, pos)));
            }
            let b = self.input[pos];
            if b != BYTE_SLASH {
                break ;
            }
            if self.peek_is(pos + 1, BYTE_SLASH) {
                proof {
                    lemma_line_comment_end_bounds(self.input@, pos + 2);
                }
                pos = self.skip_line_comment(pos + 2);
            } else if unlikely(self.peek_is(pos + 1, BYTE_STAR)) {
                proof {
                    lemma_block_comment_end_bounds(self.input@, pos + 2);
                }
                pos = self.skip_block_comment(pos + 2);
            } else {
                self.pos = pos + 1;
                return Ok(Token::new(TokenType::Slash, Span::new(pos, pos + 1)));
            }
        }
        self.pos = pos;
        let b = self.input[pos];
        let mask = classify(b);
        proof {
            lemma_class_flags(b);
        }
        if (mask & CHAR_SYMBOL) != 0 {
            self.read_symbol()
        } else if (mask & CHAR_DEC_DIGIT) != 0 {
            self.read_number()
        } else if (mask & CHAR_ASCII_ID_START) != 0 {
            self.read_identifier()
        } else if (mask & CHAR_QUOTE) != 0 {
            self.read_string()
        } else {
            let is_start = match self.peek_char(pos) {
                Some(c) => begins_identifier(c),
                None => false,
            };
            self.read_other(unlikely(is_start))
        }
    }

    /// Reads what begins with a byte of none of the single-byte classes,
    /// given whether the character there may begin an identifier: the
    /// identifier, or the error that reports the character.
    pub fn read_other(&mut self, is_start: bool) -> (r: Result<Token, CompilerError>)
        requires
            old(self).offset() < old(self).source().len(),
        ensures
            final(self).stepped(
                *old(self),
                r,
                lex_other(old(self).source(), old(self).offset(), is_start),
            ),
    {
        proof {
            use_type_invariant(&*self);
        }
        if is_start {
            self.read_identifier()
        } else {
            let start = self.pos;
            let end = self.advance_char(start);
            self.pos = end;
            Err(self.error(ErrorKind::UnexpectedCharacter, Span::new(start, end)))
        }
    }

    fn error(&self, kind: ErrorKind, span: Span) -> (e: CompilerError)
        ensures
            e.kind == kind,
            e.span == span,
            e.input@ == self.source(),
            e.filename@ == self.file(),
    {
        CompilerError::new(kind, span, self.input, String::from_str(self.filename))
    }

    fn read_identifier(&mut self) -> (r: Result<Token, CompilerError>)
        requires
            old(self).offset() < old(self).source().len(),
        ensures
            final(self).stepped(
                *old(self),
                r,
                lex_identifier(old(self).source(), old(self).offset()),
            ),
    {
        proof {
            use_type_invariant(&*self);
        }
        let start = self.pos;
        let len = self.input_len;
        let first = self.advance_char(start);
        let mut pos = first;
        while likely(pos < len)
            invariant
                *self == *old(self),
                len == self.input@.len(),
                start < pos <= len,
                ident_end(self.input@, pos as int) == ident_end(self.input@, first as int),
            ensures
                start < pos <= len,
                ident_end(self.input@, first as int) == pos,
            decreases len - pos,
        {
            let b = self.input[pos];
            proof {
                lemma_class_flags(b);
            }
            if has_class(b, CHAR_ASCII_ID_CONTINUE) {
                advance(&mut pos, 1);
            } else if !has_class(b, CHAR_UTF8_START) {
                break ;
            } else {
                let continues = match self.peek_char(pos) {
                    Some(c) => is_xid_continue(c),
                    None => false,
                };
                match wide_step(pos, width_of(b), unlikely(continues)) {
                    Some(next) => {
                        pos = next;
                    },
                    None => {
                        break ;
                    },
                }
            }
        }
        let kind = keyword(slice_subrange(self.input, start, pos));
        self.pos = pos;
        Ok(Token::new(kind, Span::new(start, pos)))
    }

    fn read_string(&mut self) -> (r: Result<Token, CompilerError>)
        requires
            old(self).offset() < old(self).source().len(),
            is_quote(old(self).source()[old(self).offset()]),
        ensures
            final(self).stepped(*old(self), r, lex_string(old(self).source(), old(self).offset())),
    {
        proof {
            use_type_invariant(&*self);
        }
        let start = self.pos;
        let len = self.input_len;
        let double = self.input[start] == BYTE_DOUBLE_QUOTE;
        let quote_mask: u16 = if double {
            CHAR_DOUBLE_QUOTE
        } else {
            CHAR_SINGLE_QUOTE
        };
        let stop_mask: u16 = if double {
            CHAR_DOUBLE_STOP
        } else {
            CHAR_SINGLE_STOP
        };
        let ghost quote = self.input@[start as int];
        let mut pos = start + 1;
        while likely(pos < len)
            invariant
                *self == *old(self),
                len == self.input@.len(),
                len == self.input_len,
                start < pos <= len,
                start == self.pos,
                quote == self.input@[start as int],
                is_quote(quote),
                double == (quote == BYTE_DOUBLE_QUOTE),
                quote_mask == if double {
                    CHAR_DOUBLE_QUOTE
                } else {
                    CHAR_SINGLE_QUOTE
                },
                stop_mask == if double {
                    CHAR_DOUBLE_STOP
                } else {
                    CHAR_SINGLE_STOP
                },
                string_end(self.input@, pos as int, quote) == string_end(
                    self.input@,
                    start + 1,
                    quote,
                ),
            decreases len - pos,
        {
            let b = self.input[pos];
            let mask = classify(b);
            proof {
                lemma_class_flags(b);
            }
            if likely((mask & stop_mask) == 0) {
                advance(&mut pos, 1);
                continue ;
            }
            if unlikely((mask & quote_mask) != 0) {
                advance(&mut pos, 1);
                self.pos = pos;
                return Ok(Token::new(TokenType::String, Span::new(start, pos)));
            }
            if unlikely((mask & CHAR_ESCAPE) != 0) {
                if len - pos < 2 {
                    assert(string_end(self.input@, pos + 2, quote) == Err::<int, int>(len as int));
                    return Err(self.error(ErrorKind::UnclosedString, Span::new(start, len)));
                }
                advance(&mut pos, 2);
                continue ;
            }
            return Err(self.error(ErrorKind::UnclosedString, Span::new(start, pos)));
        }
        Err(self.error(ErrorKind::UnclosedString, Span::new(start, len)))
    }

    fn read_symbol(&mut self) -> (r: Result<Token, CompilerError>)
        requires
            old(self).offset() < old(self).source().len(),
        ensures
            final(self).stepped(*old(self), r, lex_symbol(old(self).source(), old(self).offset())),
    {
        proof {
            use_type_invariant(&*self);
        }
        let start = self.pos;
        let rule = symbol_rule(self.input[start]);
        if unlikely(rule.max_len == 0) {
            return Err(self.error(ErrorKind::UnexpectedCharacter, Span::new(start, start)));
        }
        let mut pos = start + 1;
        let mut kind = rule.single;
        if rule.max_len == 2 && likely(pos < self.input_len) {
            let next = self.input[pos];
            if rule.double1 != TokenType::Unknown && next == rule.expect1 {
                kind = rule.double1;
                advance(&mut pos, 1);
            } else if unlikely(rule.double2 != TokenType::Unknown && next == rule.expect2) {
                kind = rule.double2;
                advance(&mut pos, 1);
            }
        }
        self.pos = pos;
        Ok(Token::new(kind, Span::new(start, pos)))
    }

    fn read_number(&mut self) -> (r: Result<Token, CompilerError>)
        requires
            old(self).offset() < old(self).source().len(),
        ensures
            final(self).stepped(*old(self), r, lex_number(old(self).source(), old(self).offset())),
    {
        proof {
            use_type_invariant(&*self);
        }
        let start = self.pos;
        let radix = if self.input[start] == BYTE_ZERO {
            match self.peek(start + 1) {
                Some(b) => radix_of(b),
                None => None,
            }
        } else {
            None
        };
        let (kind, end) = match radix {
            Some(mask) => (TokenType::Int, self.read_bytes(start + 2, mask)),
            None => self.read_decimal_digits(start),
        };
        self.pos = end;
        Ok(Token::new(kind, Span::new(start, end)))
    }

    /// The end of the run of bytes of class `mask` that starts at `pos`.
    fn read_bytes(&self, pos: usize, mask: u16) -> (end: usize)
        requires
            pos <= self.source().len(),
        ensures
            end == run_end(self.source(), pos as int, mask),
            pos <= end <= self.source().len(),
    {
        scan_run(self.input, pos, mask)
    }

    fn read_decimal_digits(&self, pos: usize) -> (r: (TokenType, usize))
        requires
            pos <= self.source().len(),
        ensures
            r == (decimal_end(self.source(), pos as int).0, decimal_end(
                self.source(),
                pos as int,
            ).1 as usize),
            pos <= decimal_end(self.source(), pos as int).1 <= self.source().len(),
    {
        proof {
            use_type_invariant(self);
        }
        let mut kind = TokenType::Int;
        let mut end = self.read_bytes(pos, CHAR_DEC_DIGIT);
        if unlikely(self.peek_is(end, BYTE_DOT)) {
            kind = TokenType::Float;
            advance(&mut end, 1);
            end = self.read_bytes(end, CHAR_DEC_DIGIT);
        }
        let marked = self.peek_is(end, 0x65) || self.peek_is(end, 0x45);
        if unlikely(marked) {
            kind = TokenType::Float;
            advance(&mut end, 1);
            let signed = self.peek_is(end, BYTE_PLUS) || self.peek_is(end, BYTE_MINUS);
            if signed {
                advance(&mut end, 1);
            }
            end = self.read_bytes(end, CHAR_DEC_DIGIT);
        }
        (kind, end)
    }

    /// The offset behind the character at `pos`, but never beyond the end.
    fn advance_char(&self, pos: usize) -> (end: usize)
        requires
            pos < self.source().len(),
        ensures
            end == char_end(self.source(), pos as int),
            pos < end <= self.source().len(),
    {
        let width = width_of(self.input[pos]);
        if width <= self.input.len() - pos {
            pos + width
        } else {
            self.input.len()
        }
    }

    fn peek_char(&self, pos: usize) -> (r: Option<char>)
        ensures
            r == char_at(self.source(), pos as int),
    {
        decode_char(self.input, pos)
    }

    fn peek(&self, pos: usize) -> (r: Option<u8>)
        ensures
            r == byte_at(self.source(), pos as int),
    {
        if pos < self.input.len() {
            Some(self.input[pos])
        } else {
            None
        }
    }

    /// Whether the byte at `pos` is `b`.
    fn peek_is(&self, pos: usize, b: u8) -> (r: bool)
        ensures
            r == (byte_at(self.source(), pos as int) == Some(b)),
    {
        match self.peek(pos) {
            Some(found) => found == b,
            None => false,
        }
    }

    fn skip_block_comment(&self, pos: usize) -> (end: usize)
        requires
            pos <= self.source().len(),
        ensures
            end == block_comment_end(self.source(), pos as int),
    {
        let len = self.input.len();
        let mut end = pos;
        while likely(end < len)
            invariant
                len == self.input@.len(),
                pos <= end <= len,
                block_comment_end(self.input@, end as int) == block_comment_end(
                    self.input@,
                    pos as int,
                ),
            decreases len - end,
        {
            let closes = self.input[end] == BYTE_STAR && self.peek_is(end + 1, BYTE_SLASH);
            if unlikely(closes) {
                return end + 2;
            }
            advance(&mut end, 1);
        }
        end
    }

    fn skip_line_comment(&self, pos: usize) -> (end: usize)
        requires
            pos <= self.source().len(),
        ensures
            end == line_comment_end(self.source(), pos as int),
    {
        let len = self.input.len();
        let mut end = pos;
        while likely(end < len) && self.input[end] != BYTE_NEWLINE
            invariant
                len == self.input@.len(),
                pos <= end <= len,
                line_comment_end(self.input@, end as int) == line_comment_end(
                    self.input@,
                    pos as int,
                ),
            decreases len - end,
        {
            advance(&mut end, 1);
        }
        end
    }
}

/// A decimal number ends inside the source, and behind its first digit.
pub proof fn lemma_decimal_end_bounds(s: Seq<u8>, pos: int)
    requires
        0 <= pos <= s.len(),
    ensures
        pos <= decimal_end(s, pos).1 <= s.len(),
        pos < s.len() && is_dec_digit(s[pos]) ==> pos < decimal_end(s, pos).1,
{
    lemma_run_end_bounds(s, pos, CHAR_DEC_DIGIT);
    let digits = run_end(s, pos, CHAR_DEC_DIGIT);
    if pos < s.len() {
        lemma_class_flags(s[pos]);
    }
    if digits < s.len() {
        lemma_run_end_bounds(s, digits + 1, CHAR_DEC_DIGIT);
    }
    let mantissa = match fraction_end(s, digits) {
        Some(end) => end,
        None => digits,
    };
    if mantissa < s.len() {
        lemma_run_end_bounds(s, mantissa + 1, CHAR_DEC_DIGIT);
        if mantissa + 1 < s.len() {
            lemma_run_end_bounds(s, mantissa + 2, CHAR_DEC_DIGIT);
        }
    }
}

/// A number is an integer or a float, and ends inside the source behind its
/// first digit.
pub proof fn lemma_number_end_bounds(s: Seq<u8>, pos: int)
    requires
        0 <= pos < s.len(),
        is_dec_digit(s[pos]),
    ensures
        pos < number_end(s, pos).1 <= s.len(),
        number_end(s, pos).0 == TokenType::Int || number_end(s, pos).0 == TokenType::Float,
{
    lemma_decimal_end_bounds(s, pos);
    match radix_at(s, pos) {
        Some(mask) => {
            lemma_run_end_bounds(s, pos + 2, mask);
        },
        None => {},
    }
}

/// An identifier ends inside the source.
pub proof fn lemma_ident_end_bounds(s: Seq<u8>, pos: int)
    requires
        0 <= pos <= s.len(),
    ensures
        pos <= ident_end(s, pos) <= s.len(),
    decreases s.len() - pos,
{
    if pos < s.len() {
        if is_ascii_id_continue(s[pos]) {
            lemma_ident_end_bounds(s, pos + 1);
        } else if wide_continue(s, pos) {
            lemma_ident_end_bounds(s, pos + char_width(s[pos]));
        }
    }
}

/// A string literal ends behind its closing quote; one that is not closed
/// ends at a line feed or at the end of the source.
pub proof fn lemma_string_end_bounds(s: Seq<u8>, pos: int, quote: u8)
    requires
        0 <= pos,
    ensures
        match string_end(s, pos, quote) {
            Ok(end) => pos < end <= s.len() && s[end - 1] == quote,
            Err(end) => {
                &&& end <= s.len()
                &&& pos <= s.len() ==> pos <= end
                &&& byte_at(s, end) matches Some(b) ==> b == BYTE_NEWLINE
            },
        },
    decreases s.len() - pos + 1,
{
    if pos < s.len() && s[pos] != quote {
        if s[pos] == 0x5Cu8 {
            lemma_string_end_bounds(s, pos + 2, quote);
        } else if s[pos] != BYTE_NEWLINE {
            lemma_string_end_bounds(s, pos + 1, quote);
        }
    }
}

/// The kinds of the words: a keyword, a type name, or `Identifier`.
pub open spec fn is_word_kind(kind: TokenType) -> bool {
    kind != TokenType::Unknown && kind != TokenType::Eof && kind != TokenType::Int && kind
        != TokenType::Float && kind != TokenType::String && crate::symbols::spelling(kind) is None
}

/// Whether `token` is a token of the source `s` by what lies under its span:
/// an operator or punctuation mark covers its own spelling, a number starts
/// with a digit, a string literal starts and ends with the same quote, a word
/// is of the kind that its text spells, and `Eof` covers nothing.
#[verifier::opaque]
pub open spec fn token_fits(s: Seq<u8>, token: Token) -> bool {
    let start = token.span.start as int;
    let end = token.span.end as int;
    let text = s.subrange(start, end);
    &&& 0 <= start <= end <= s.len()
    &&& match token.token_type {
        TokenType::Unknown => false,
        TokenType::Eof => start == end == s.len(),
        TokenType::Int | TokenType::Float => start < end && is_dec_digit(s[start]),
        TokenType::String => start + 2 <= end && is_quote(s[start]) && s[end - 1] == s[start],
        kind => match crate::symbols::spelling(kind) {
            Some(word) => text == word,
            None => start < end && keyword_kind(text) == kind,
        },
    }
}

/// Span coverage for tokens, and progress. A step from `pos` passes over the
/// whitespace and comments at `pos` and nothing else before its token or its
/// error. A token covers exactly the bytes that it was read from, the text
/// under its span fits its kind, and the next step starts right behind it. An
/// error is an unclosed string or an unexpected character, and its span
/// starts where the offending text starts.
pub proof fn lemma_lex_step(s: Seq<u8>, pos: int)
    requires
        0 <= pos <= s.len() <= usize::MAX,
    ensures
        pos <= trivia_end(s, pos) <= lex(s, pos).1 <= s.len(),
        match lex(s, pos).0 {
            Ok(token) => {
                &&& token.span == span_of(trivia_end(s, pos), lex(s, pos).1)
                &&& token_fits(s, token)
                &&& token.token_type != TokenType::Eof ==> trivia_end(s, pos) < lex(s, pos).1
            },
            Err((kind, span)) => {
                &&& kind == ErrorKind::UnclosedString || kind == ErrorKind::UnexpectedCharacter
                &&& span.start == trivia_end(s, pos)
                &&& span.start < span.end <= s.len()
                &&& lex(s, pos).1 == if kind == ErrorKind::UnclosedString {
                    span.start
                } else {
                    span.end
                }
            },
        },
{
    reveal(token_fits);
    lemma_trivia_end_bounds(s, pos);
    let p = trivia_end(s, pos);
    if p < s.len() {
        let b = s[p];
        if b == BYTE_SLASH {
            assert(s.subrange(p, p + 1) =~= seq![BYTE_SLASH]);
        } else if is_symbol(b) {
            lemma_symbols_have_rules(b, byte_at(s, p + 1));
            crate::symbols::lemma_symbol_spelling(b, byte_at(s, p + 1));
            let (kind, len) = symbol_token(b, byte_at(s, p + 1)).unwrap();
            if len == 1 {
                assert(s.subrange(p, p + 1) =~= seq![b]);
            } else {
                assert(s.subrange(p, p + 2) =~= seq![b, s[p + 1]]);
            }
        } else if is_dec_digit(b) {
            lemma_number_end_bounds(s, p);
        } else if is_ascii_id_start(b) || (!is_quote(b) && wide_start(s, p)) {
            lemma_ident_end_bounds(s, char_end(s, p));
            lemma_keyword_kind_is_word(s.subrange(p, ident_end(s, char_end(s, p))));
        } else if is_quote(b) {
            lemma_string_end_bounds(s, p + 1, b);
        }
    }
}

/// A word is never of the kind of a number, a string, a symbol or the end.
pub proof fn lemma_keyword_kind_is_word(text: Seq<u8>)
    ensures
        is_word_kind(keyword_kind(text)),
{
}

/// Idempotent end: once a step yields `Eof`, the step from where it stopped
/// yields the same `Eof` and stops at the same offset.
pub proof fn lemma_eof_is_stable(s: Seq<u8>, pos: int)
    requires
        0 <= pos <= s.len() <= usize::MAX,
        lex(s, pos).0 matches Ok(token) && token.token_type == TokenType::Eof,
    ensures
        lex(s, lex(s, pos).1) == lex(s, pos),
        lex(s, pos).1 == s.len(),
{
    lemma_lex_step(s, pos);
    lemma_trivia_end_bounds(s, pos);
}

/// `done`, and behind it the tokens of `rest`; the error of `rest` where it is one.
pub open spec fn prepend(done: Seq<Token>, rest: Result<Seq<Token>, (ErrorKind, Span)>) -> Result<
    Seq<Token>,
    (ErrorKind, Span),
> {
    match rest {
        Ok(tokens) => Ok(done + tokens),
        Err(e) => Err(e),
    }
}

/// The tokens of `s` from offset `pos` on, up to and with the `Eof` that ends
/// them; or the first error on the way.
pub open spec fn lex_all(s: Seq<u8>, pos: int) -> Result<Seq<Token>, (ErrorKind, Span)>
    decreases s.len() - pos,
    via lex_all_decreases
{
    if pos < 0 || pos > s.len() || s.len() > usize::MAX {
        Ok(seq![])
    } else {
        match lex(s, pos).0 {
            Err(e) => Err(e),
            Ok(token) => if token.token_type == TokenType::Eof {
                Ok(seq![token])
            } else {
                prepend(seq![token], lex_all(s, lex(s, pos).1))
            },
        }
    }
}

#[via_fn]
proof fn lex_all_decreases(s: Seq<u8>, pos: int) {
    if 0 <= pos <= s.len() <= usize::MAX {
        lemma_lex_step(s, pos);
    }
}

/// The bytes of `s` from `pos` on as the tokens give them back: in front of
/// each token the bytes between the token before it and itself, then the
/// bytes under its own span.
pub open spec fn reassemble(s: Seq<u8>, pos: int, tokens: Seq<Token>) -> Seq<u8>
    decreases tokens.len(),
{
    if tokens.len() == 0 {
        seq![]
    } else {
        s.subrange(pos, tokens[0].span.start as int) + s.subrange(
            tokens[0].span.start as int,
            tokens[0].span.end as int,
        ) + reassemble(s, tokens[0].span.end as int, tokens.drop_first())
    }
}

/// Whether what lies between the tokens is whitespace and comments and
/// nothing else: each token starts where the whitespace and comments behind
/// the token before it end.
pub open spec fn gaps_are_trivia(s: Seq<u8>, pos: int, tokens: Seq<Token>) -> bool
    decreases tokens.len(),
{
    tokens.len() > 0 ==> {
        &&& trivia_end(s, pos) == tokens[0].span.start
        &&& gaps_are_trivia(s, tokens[0].span.end as int, tokens.drop_first())
    }
}

/// Round trip. Where the source lexes without error from `pos`, the tokens
/// end in the one `Eof`, each fits the text under its span, only whitespace
/// and comments lie between them, and the gaps and the tokens put together
/// in order are the source from `pos` to its end.
pub proof fn lemma_round_trip(s: Seq<u8>, pos: int)
    requires
        0 <= pos <= s.len() <= usize::MAX,
        lex_all(s, pos) is Ok,
    ensures
        ({
            let tokens = lex_all(s, pos).unwrap();
            &&& tokens.len() > 0
            &&& tokens.last().token_type == TokenType::Eof
            &&& forall|i: int|
                0 <= i < tokens.len() - 1 ==> (#[trigger] tokens[i]).token_type != TokenType::Eof
            &&& forall|i: int| 0 <= i < tokens.len() ==> token_fits(s, #[trigger] tokens[i])
            &&& gaps_are_trivia(s, pos, tokens)
            &&& reassemble(s, pos, tokens) == s.subrange(pos, s.len() as int)
        }),
    decreases s.len() - pos,
{
    lemma_lex_step(s, pos);
    let token = lex(s, pos).0.unwrap();
    let next = lex(s, pos).1;
    let tokens = lex_all(s, pos).unwrap();
    if token.token_type == TokenType::Eof {
        assert(reassemble(s, next, tokens.drop_first()) =~= seq![]);
        assert(gaps_are_trivia(s, tokens[0].span.end as int, tokens.drop_first()));
    } else {
        lemma_round_trip(s, next);
        let rest = lex_all(s, next).unwrap();
        assert(tokens.drop_first() =~= rest);
    }
}

/// The tokens of a source stand in its order, from the offset at which the
/// lexer started on.
pub proof fn lemma_lexed_in_order(s: Seq<u8>, pos: int)
    requires
        0 <= pos <= s.len() <= usize::MAX,
        lex_all(s, pos) is Ok,
    ensures
        tokens_ordered(lex_all(s, pos).unwrap()),
        forall|i: int|
            0 <= i < lex_all(s, pos).unwrap().len() ==> pos <= (#[trigger] lex_all(
                s,
                pos,
            ).unwrap()[i]).span.start <= lex_all(s, pos).unwrap()[i].span.end,
    decreases s.len() - pos,
{
    lemma_lex_step(s, pos);
    let token = lex(s, pos).0.unwrap();
    let next = lex(s, pos).1;
    let tokens = lex_all(s, pos).unwrap();
    if token.token_type != TokenType::Eof {
        lemma_lexed_in_order(s, next);
    }
}

/// Lexes the whole of `input`: the tokens in order, the last of them `Eof`,
/// or the first error.
pub fn tokenize(filename: &str, input: &[u8]) -> (r: Result<Vec<Token>, CompilerError>)
    ensures
        match lex_all(input@, 0) {
            Ok(tokens) => r matches Ok(v) && v@ == tokens,
            Err((kind, span)) => {
                &&& r matches Err(e)
                &&& e.kind == kind
                &&& e.span == span
                &&& e.input@ == input@
                &&& e.filename@ == filename@
            },
        },
{
    let len = input.len();
    let mut lexer = Lexer::new(filename, input);
    let mut tokens: Vec<Token> = Vec::with_capacity(len / 4);
    let ghost mut at: int = 0;
    loop
        invariant
            len == input@.len(),
            lexer.source() == input@,
            lexer.file() == filename@,
            lexer.offset() == at,
            0 <= at <= input@.len() <= usize::MAX,
            lex_all(input@, 0) == prepend(tokens@, lex_all(input@, at)),
        decreases input@.len() - at,
    {
        proof {
            lemma_lex_step(input@, at);
        }
        match lexer.next_token() {
            Ok(token) => {
                proof {
                    let rest = lex_all(input@, lex(input@, at).1);
                    if token.token_type != TokenType::Eof {
                        match rest {
                            Ok(more) => {
                                assert(tokens@ + (seq![token] + more) =~= tokens@.push(token)
                                    + more);
                            },
                            Err(e) => {},
                        }
                    }
                    at = lex(input@, at).1;
                }
                tokens.push(token);
                if token.token_type == TokenType::Eof {
                    return Ok(tokens);
                }
            },
            Err(e) => {
                return Err(e);
            },
        }
    }
}

} // verus!
