use crate::span::Span;
use vstd::prelude::*;

verus! {

/// The lexical category of a token.
#[derive(Debug, Clone, Copy, PartialEq, Eq, Structural)]
pub enum TokenType {
    /// Placeholder of the symbol rules; the lexer never emits it.
    Unknown,
    Identifier,
    Int,
    Float,
    String,
    /// `=`
    Assign,
    /// `+`
    Plus,
    /// `-`
    Minus,
    /// `*`
    Star,
    /// `/`
    Slash,
    /// `%`
    Mod,
    /// `**`
    Power,
    /// `(`
    LParen,
    /// `)`
    RParen,
    /// `{`
    LBrace,
    /// `}`
    RBrace,
    /// `[`
    LBracket,
    /// `]`
    RBracket,
    /// `,`
    Comma,
    /// `;`
    Semicolon,
    /// `:`
    Colon,
    /// `.`
    Dot,
    /// `!=`
    Ne,
    /// `<`
    Lt,
    /// `>`
    Gt,
    /// `<=`
    LtE,
    /// `>=`
    GtE,
    /// `==`
    Eq,
    /// `!`
    Not,
    /// `&&`
    And,
    /// `||`
    Or,
    /// `&`
    Ampersand,
    /// `|`
    Pipe,
    /// `~`
    Tilde,
    /// `^`
    BitwiseXor,
    /// `<<`
    BitwiseShl,
    /// `>>`
    BitwiseShr,
    Let,
    Const,
    Struct,
    Impl,
    Enum,
    Mut,
    If,
    Else,
    While,
    For,
    In,
    Func,
    Return,
    Loop,
    Break,
    Continue,
    Match,
    Import,
    True,
    False,
    /// The keyword `None`
    NoneKeyword,
    /// The type keyword `int`
    TypeInt,
    /// The type keyword `float`
    TypeFloat,
    /// The type keyword `string`
    TypeString,
    /// The type keyword `bool`
    TypeBoolean,
    Eof,
}

/// A lexical unit: its category and the bytes of the source that it covers.
#[derive(Debug, Clone, Copy, PartialEq, Eq, Structural)]
pub struct Token {
    pub token_type: TokenType,
    pub span: Span,
}

impl Token {
    pub fn new(token_type: TokenType, span: Span) -> (r: Token)
        ensures
            r.token_type == token_type,
            r.span == span,
    {
        Token { token_type, span }
    }
}

/// Whether the tokens stand in the order of the source: each ends before the
/// next one starts.
pub open spec fn tokens_ordered(tokens: Seq<Token>) -> bool {
    forall|i: int, j: int|
        0 <= i < j < tokens.len() ==> (#[trigger] tokens[i]).span.end <= (
        #[trigger] tokens[j]).span.start
}

} // verus!
