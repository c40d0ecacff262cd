//! Diagnostics: what went wrong, where, and how it is shown.
//!
//! An error keeps the span and a copy of the source. Line and column numbers
//! and the quoted source text are worked out only when the error is shown.

use crate::assumed::{lossy_string, lossy_text};
use crate::span::Span;
use vstd::prelude::*;
use vstd::slice::slice_subrange;
use vstd::slice::slice_to_vec;

verus! {

#[derive(Debug, Clone, Copy, PartialEq, Eq, Structural)]
pub enum ErrorKind {
    UnclosedString,
    UnexpectedCharacter,
    UnclosedParenthesis,
    MissingSemicolon,
    InvalidSyntax,
    ExpectedInteger,
    ExpectedFloat,
    ExpectedIdentifier,
    ExpectedString,
    ExpectedBoolean,
    ExpectedNone,
    ExpectedType,
    MissingTypeAnnotation,
    MissingAssignment,
}

/// A lexical or syntactic error, with the source that it was found in.
#[derive(Debug, Clone)]
pub struct CompilerError {
    pub kind: ErrorKind,
    pub span: Span,
    pub input: Vec<u8>,
    pub filename: String,
}

impl CompilerError {
    pub fn new(kind: ErrorKind, span: Span, input: &[u8], filename: String) -> (e: CompilerError)
        ensures
            e.kind == kind,
            e.span == span,
            e.input@ == input@,
            e.filename == filename,
    {
        CompilerError { kind, span, input: slice_to_vec(input), filename }
    }

    /// The diagnostic as one line of text.
    pub fn to_string(&self) -> (r: String)
        requires
            self.input@.len() < usize::MAX,
        ensures
            r@ == error_text(self.kind, self.span, self.input@, self.filename@),
    {
        format(&self.kind, self.span, &self.input, &self.filename)
    }
}

/// `pos`, or the length of `s` where `pos` lies beyond it.
pub open spec fn clamp_pos(s: Seq<u8>, pos: int) -> int {
    if pos < s.len() {
        pos
    } else {
        s.len() as int
    }
}

/// The number of line feeds among the first `pos` bytes of `s`.
pub open spec fn newline_count(s: Seq<u8>, pos: int) -> int
    decreases pos,
{
    if pos <= 0 {
        0
    } else {
        newline_count(s, pos - 1) + if s[pos - 1] == 0x0A {
            1int
        } else {
            0int
        }
    }
}

/// Where the line that holds offset `pos` begins: just behind the last line
/// feed before `pos`, or at 0.
pub open spec fn line_start(s: Seq<u8>, pos: int) -> int
    decreases pos,
{
    if pos <= 0 {
        0
    } else if s[pos - 1] == 0x0A {
        pos
    } else {
        line_start(s, pos - 1)
    }
}

/// The 1-based line of offset `pos`.
pub open spec fn line_of(s: Seq<u8>, pos: int) -> int {
    1 + newline_count(s, clamp_pos(s, pos))
}

/// The 1-based column of offset `pos`, counted in bytes.
pub open spec fn column_of(s: Seq<u8>, pos: int) -> int {
    1 + clamp_pos(s, pos) - line_start(s, clamp_pos(s, pos))
}

pub proof fn lemma_line_start_bounds(s: Seq<u8>, pos: int)
    requires
        0 <= pos,
    ensures
        0 <= line_start(s, pos) <= pos,
        0 <= newline_count(s, pos) <= pos,
    decreases pos,
{
    if pos > 0 {
        lemma_line_start_bounds(s, pos - 1);
    }
}

/// The 1-based line and column of byte offset `pos`, found by a scan from the
/// start of the buffer. An offset beyond the buffer counts as its end.
pub fn line_col(input: &[u8], pos: usize) -> (r: (usize, usize))
    requires
        input@.len() < usize::MAX,
    ensures
        r.0 == line_of(input@, pos as int),
        r.1 == column_of(input@, pos as int),
{
    let end: usize = if pos < input.len() {
        pos
    } else {
        input.len()
    };
    let mut line: usize = 1;
    let mut col: usize = 1;
    let mut i: usize = 0;
    while i < end
        invariant
            i <= end <= input@.len() < usize::MAX,
            line == 1 + newline_count(input@, i as int),
            col == 1 + i - line_start(input@, i as int),
        decreases end - i,
    {
        proof {
            lemma_line_start_bounds(input@, i as int);
        }
        if input[i] == 0x0A {
            line += 1;
            col = 1;
        } else {
            col += 1;
        }
        i += 1;
    }
    (line, col)
}

/// The part of `s` that `span` covers, with both ends clamped to the buffer
/// and an end before the start counted as the start.
pub open spec fn span_bytes(s: Seq<u8>, span: Span) -> Seq<u8> {
    let start = clamp_pos(s, span.start as int);
    let end = clamp_pos(s, span.end as int);
    if start <= end {
        s.subrange(start, end)
    } else {
        s.subrange(start, start)
    }
}

/// How a byte string is shown: decoded where it is valid UTF-8, and otherwise
/// decoded with U+FFFD in place of each malformed sequence.
pub open spec fn shown_text(bytes: Seq<u8>) -> Seq<char> {
    if vstd::utf8::valid_utf8(bytes) {
        vstd::utf8::decode_utf8(bytes)
    } else {
        lossy_text(bytes)
    }
}

/// The source text under `span`, for display.
pub fn snippet(input: &[u8], span: Span) -> (r: String)
    ensures
        r@ == shown_text(span_bytes(input@, span)),
{
    let len = input.len();
    let start: usize = if span.start < len {
        span.start
    } else {
        len
    };
    let end: usize = if span.end < len {
        span.end
    } else {
        len
    };
    let end: usize = if start <= end {
        end
    } else {
        start
    };
    lossy_string(slice_subrange(input, start, end))
}

/// The character of a digit below 16: `0`-`9`, then `a`-`f`.
pub open spec fn digit_char(d: int) -> char {
    if d < 10 {
        (0x30 + d) as char
    } else {
        (0x57 + d) as char
    }
}

/// `n` written in base 10, most significant digit first, no padding.
pub open spec fn decimal_digits(n: nat) -> Seq<char>
    decreases n,
{
    if n < 10 {
        seq![digit_char(n as int)]
    } else {
        decimal_digits(n / 10).push(digit_char((n % 10) as int))
    }
}

/// `n` written in base 16, most significant digit first, no padding.
pub open spec fn hex_digits(n: nat) -> Seq<char>
    decreases n,
{
    if n < 16 {
        seq![digit_char(n as int)]
    } else {
        hex_digits(n / 16).push(digit_char((n % 16) as int))
    }
}

fn digit_str(d: usize) -> (s: &'static str)
    requires
        d < 16,
    ensures
        s@ == seq![digit_char(d as int)],
{
    proof {
        reveal_strlit("0");
        reveal_strlit("1");
        reveal_strlit("2");
        reveal_strlit("3");
        reveal_strlit("4");
        reveal_strlit("5");
        reveal_strlit("6");
        reveal_strlit("7");
        reveal_strlit("8");
        reveal_strlit("9");
        reveal_strlit("a");
        reveal_strlit("b");
        reveal_strlit("c");
        reveal_strlit("d");
        reveal_strlit("e");
        reveal_strlit("f");
    }
    let s = match d {
        0 => "0",
        1 => "1",
        2 => "2",
        3 => "3",
        4 => "4",
        5 => "5",
        6 => "6",
        7 => "7",
        8 => "8",
        9 => "9",
        10 => "a",
        11 => "b",
        12 => "c",
        13 => "d",
        14 => "e",
        _ => "f",
    };
    s
}

/// `n` as text in base 10.
pub fn decimal_text(n: usize) -> (r: String)
    ensures
        r@ == decimal_digits(n as nat),
    decreases n,
{
    if n < 10 {
        String::from_str(digit_str(n))
    } else {
        let mut r = decimal_text(n / 10);
        r.append(digit_str(n % 10));
        r
    }
}

/// `n` as text in base 16.
pub fn hex_text(n: usize) -> (r: String)
    ensures
        r@ == hex_digits(n as nat),
    decreases n,
{
    if n < 16 {
        String::from_str(digit_str(n))
    } else {
        let mut r = hex_text(n / 16);
        r.append(digit_str(n % 16));
        r
    }
}

/// The name of an error kind, as it is written in the source.
pub open spec fn kind_name(kind: ErrorKind) -> Seq<char> {
    match kind {
        ErrorKind::UnclosedString => "UnclosedString"@,
        ErrorKind::UnexpectedCharacter => "UnexpectedCharacter"@,
        ErrorKind::UnclosedParenthesis => "UnclosedParenthesis"@,
        ErrorKind::MissingSemicolon => "MissingSemicolon"@,
        ErrorKind::InvalidSyntax => "InvalidSyntax"@,
        ErrorKind::ExpectedInteger => "ExpectedInteger"@,
        ErrorKind::ExpectedFloat => "ExpectedFloat"@,
        ErrorKind::ExpectedIdentifier => "ExpectedIdentifier"@,
        ErrorKind::ExpectedString => "ExpectedString"@,
        ErrorKind::ExpectedBoolean => "ExpectedBoolean"@,
        ErrorKind::ExpectedNone => "ExpectedNone"@,
        ErrorKind::ExpectedType => "ExpectedType"@,
        ErrorKind::MissingTypeAnnotation => "MissingTypeAnnotation"@,
        ErrorKind::MissingAssignment => "MissingAssignment"@,
    }
}

impl ErrorKind {
    /// The name of the kind.
    pub fn name(&self) -> (r: &'static str)
        ensures
            r@ == kind_name(*self),
    {
        match self {
            ErrorKind::UnclosedString => "UnclosedString",
            ErrorKind::UnexpectedCharacter => "UnexpectedCharacter",
            ErrorKind::UnclosedParenthesis => "UnclosedParenthesis",
            ErrorKind::MissingSemicolon => "MissingSemicolon",
            ErrorKind::InvalidSyntax => "InvalidSyntax",
            ErrorKind::ExpectedInteger => "ExpectedInteger",
            ErrorKind::ExpectedFloat => "ExpectedFloat",
            ErrorKind::ExpectedIdentifier => "ExpectedIdentifier",
            ErrorKind::ExpectedString => "ExpectedString",
            ErrorKind::ExpectedBoolean => "ExpectedBoolean",
            ErrorKind::ExpectedNone => "ExpectedNone",
            ErrorKind::ExpectedType => "ExpectedType",
            ErrorKind::MissingTypeAnnotation => "MissingTypeAnnotation",
            ErrorKind::MissingAssignment => "MissingAssignment",
        }
    }
}

/// The byte at the start of `span`, or 0 where the span starts beyond the buffer.
pub open spec fn first_byte(s: Seq<u8>, span: Span) -> u8 {
    if span.start < s.len() {
        s[span.start as int]
    } else {
        0
    }
}

/// The message of each kind, around the quoted source text `shown`; an
/// unexpected character is followed by the value of its first byte in base 16.
pub open spec fn message_text(kind: ErrorKind, shown: Seq<char>, byte: u8) -> Seq<char> {
    match kind {
        ErrorKind::UnclosedString => "unclosed string literal `"@ + shown + "`"@,
        ErrorKind::UnexpectedCharacter => "unexpected character `"@ + shown + "`(0x"@ + hex_digits(
            byte as nat,
        ) + ")"@,
        ErrorKind::UnclosedParenthesis => "unclosed parenthesis (expected `)` to close this `(`"@,
        ErrorKind::MissingSemicolon => "missing semicolon (please add a `;` after the expression)"@,
        ErrorKind::InvalidSyntax => "invalid syntax `"@ + shown + "`"@,
        ErrorKind::ExpectedInteger => "expected an integer, but found `"@ + shown + "`"@,
        ErrorKind::ExpectedFloat => "expected a float, but found `"@ + shown + "`"@,
        ErrorKind::ExpectedIdentifier => "expected an identifier, but found `"@ + shown + "`"@,
        ErrorKind::ExpectedString => "expected a string, but found `"@ + shown + "`"@,
        ErrorKind::ExpectedBoolean => "expected a boolean, but found `"@ + shown + "`"@,
        ErrorKind::ExpectedNone => "expected a None, but found `"@ + shown + "`"@,
        ErrorKind::ExpectedType => "expected a type after `:`, but found `"@ + shown + "`"@,
        ErrorKind::MissingTypeAnnotation => "const need a type annotation, but found `"@ + shown
            + "`"@,
        ErrorKind::MissingAssignment => "need a assignment, but found `"@ + shown + "`"@,
    }
}

fn quoted(before: &str, shown: &str) -> (r: String)
    ensures
        r@ == before@ + shown@ + "`"@,
{
    let mut r = String::from_str(before);
    r.append(shown);
    r.append("`");
    r
}

/// The message of an error of kind `kind`, around the source text `shown`
/// and, for an unexpected character, the value `byte` of its first byte.
pub fn message_around(kind: &ErrorKind, shown: &str, byte: u8) -> (r: String)
    ensures
        r@ == message_text(*kind, shown@, byte),
{
    match kind {
        ErrorKind::UnclosedString => quoted("unclosed string literal `", shown),
        ErrorKind::UnexpectedCharacter => {
            let mut r = String::from_str("unexpected character `");
            r.append(shown);
            r.append("`(0x");
            r.append(hex_text(byte as usize).as_str());
            r.append(")");
            r
        },
        ErrorKind::UnclosedParenthesis => String::from_str(
            "unclosed parenthesis (expected `)` to close this `(`",
        ),
        ErrorKind::MissingSemicolon => String::from_str(
            "missing semicolon (please add a `;` after the expression)",
        ),
        ErrorKind::InvalidSyntax => quoted("invalid syntax `", shown),
        ErrorKind::ExpectedInteger => quoted("expected an integer, but found `", shown),
        ErrorKind::ExpectedFloat => quoted("expected a float, but found `", shown),
        ErrorKind::ExpectedIdentifier => quoted("expected an identifier, but found `", shown),
        ErrorKind::ExpectedString => quoted("expected a string, but found `", shown),
        ErrorKind::ExpectedBoolean => quoted("expected a boolean, but found `", shown),
        ErrorKind::ExpectedNone => quoted("expected a None, but found `", shown),
        ErrorKind::ExpectedType => quoted("expected a type after `:`, but found `", shown),
        ErrorKind::MissingTypeAnnotation => quoted(
            "const need a type annotation, but found `",
            shown,
        ),
        ErrorKind::MissingAssignment => quoted("need a assignment, but found `", shown),
    }
}

/// The message of an error of kind `kind` at `span` in `input`.
pub fn message(kind: &ErrorKind, span: Span, input: &[u8]) -> (r: String)
    ensures
        r@ == message_text(
            *kind,
            shown_text(span_bytes(input@, span)),
            first_byte(input@, span),
        ),
{
    let shown = snippet(input, span);
    let byte: u8 = if span.start < input.len() {
        input[span.start]
    } else {
        0
    };
    message_around(kind, shown.as_str(), byte)
}

/// The whole diagnostic: file, first and last line, first and last column,
/// kind, message.
pub open spec fn error_text(
    kind: ErrorKind,
    span: Span,
    input: Seq<u8>,
    filename: Seq<char>,
) -> Seq<char> {
    let lines = decimal_digits(line_of(input, span.start as int) as nat) + "~"@ + decimal_digits(
        line_of(input, span.end as int) as nat,
    );
    let columns = decimal_digits(column_of(input, span.start as int) as nat) + "~"@
        + decimal_digits(column_of(input, span.end as int) as nat);
    let said = message_text(kind, shown_text(span_bytes(input, span)), first_byte(input, span));
    filename + ":"@ + lines + ":"@ + columns + " "@ + kind_name(kind) + ": "@ + said
}

/// The diagnostic of an error of kind `kind` at `span` in `input`, read from `filename`.
pub fn format(kind: &ErrorKind, span: Span, input: &[u8], filename: &String) -> (r: String)
    requires
        input@.len() < usize::MAX,
    ensures
        r@ == error_text(*kind, span, input@, filename@),
{
    let (start_line, start_col) = line_col(input, span.start);
    let (end_line, end_col) = line_col(input, span.end);
    let mut lines = decimal_text(start_line);
    lines.append("~");
    lines.append(decimal_text(end_line).as_str());
    let mut columns = decimal_text(start_col);
    columns.append("~");
    columns.append(decimal_text(end_col).as_str());
    let said = message(kind, span, input);
    let mut r = filename.clone();
    r.append(":");
    r.append(lines.as_str());
    r.append(":");
    r.append(columns.as_str());
    r.append(" ");
    r.append(kind.name());
    r.append(": ");
    r.append(said.as_str());
    r
}

} // verus!
