//! The parser: recursive descent over a lexed token slice, with one token of
//! lookahead and no recovery. The first error ends the parse.
//!
//! What a parse yields is laid down by the `spec_*` functions below, one per
//! rule of the grammar. Each takes the tokens, the source and the index of the
//! token at which it starts, and gives the tree and the index behind it, or
//! the kind and span of the error.
//!
//! From loosest to tightest: `||`, `&&`, `+ -`, `* / %`, `**`, the prefix
//! operators, the primaries. The binary operators group to the left, but for
//! `**`, which groups to the right.

use crate::ast::{ast_of, Ast, BinOp, Expr, Literal, LiteralView, Program, Type, UnaryOp};
use crate::error::{CompilerError, ErrorKind};
use crate::literal::{
    ascii_chars, int_value, is_float, is_float_text, lemma_float_text_is_ascii,
    parse_int as int_of_text,
};
use crate::span::Span;
use crate::lexer::{lemma_lexed_in_order, lemma_round_trip, lex_all, token_fits, tokenize};
use crate::token::{tokens_ordered, Token, TokenType};
use branches::likely;
use vstd::prelude::*;
use vstd::slice::slice_subrange;
use vstd::utf8::{decode_utf8, valid_utf8};

verus! {

/// The kind and span of an error.
pub type Failure = (ErrorKind, Span);

/// What a rule yields: the tree and the index of the token behind it, or an error.
pub type Parsed = Result<(Ast, int), Failure>;

/// Whether `tokens` can be parsed against `source`: the last token is `Eof`,
/// and every span lies inside the source.
pub open spec fn tokens_valid(tokens: Seq<Token>, source: Seq<u8>) -> bool {
    &&& tokens.len() > 0
    &&& tokens.last().token_type == TokenType::Eof
    &&& forall|i: int|
        0 <= i < tokens.len() ==> (#[trigger] tokens[i]).span.start <= tokens[i].span.end
            <= source.len()
}

/// The kind of the token at `pos`; `Eof` beyond the tokens.
pub open spec fn kind_at(tokens: Seq<Token>, pos: int) -> TokenType {
    if 0 <= pos < tokens.len() {
        tokens[pos].token_type
    } else {
        TokenType::Eof
    }
}

/// The span of the token at `pos`; the empty span at 0 beyond the tokens.
pub open spec fn span_at(tokens: Seq<Token>, pos: int) -> Span {
    if 0 <= pos < tokens.len() {
        tokens[pos].span
    } else {
        Span { start: 0, end: 0 }
    }
}

/// The bytes of the source under the token at `pos`.
pub open spec fn text_at(tokens: Seq<Token>, source: Seq<u8>, pos: int) -> Seq<u8> {
    source.subrange(span_at(tokens, pos).start as int, span_at(tokens, pos).end as int)
}

/// `r`, where it stopped behind `pos` and not behind `limit`. Every rule stops
/// behind the token at which it starts and inside the tokens
/// (`lemma_rules_move_forward`), so this changes no result of a rule; it is
/// written where a rule goes on from where another stopped, and makes plain
/// that the rules end.
pub open spec fn forward(r: Parsed, pos: int, limit: int) -> Parsed {
    match r {
        Ok((ast, next)) => if pos < next <= limit {
            r
        } else {
            Err((ErrorKind::InvalidSyntax, ast.span()))
        },
        Err(e) => r,
    }
}

/// The literal node of `lit` at the token at `pos`.
pub open spec fn literal_at(tokens: Seq<Token>, pos: int, lit: LiteralView) -> Parsed {
    Ok((Ast::Literal { lit, span: span_at(tokens, pos) }, pos + 1))
}

/// An integer literal: the token is an `Int` and its text spells a 64-bit
/// signed integer in base 10.
pub open spec fn spec_int(tokens: Seq<Token>, source: Seq<u8>, pos: int) -> Parsed {
    if kind_at(tokens, pos) != TokenType::Int {
        Err((ErrorKind::ExpectedInteger, span_at(tokens, pos)))
    } else {
        match int_value(text_at(tokens, source, pos)) {
            Some(v) => literal_at(tokens, pos, LiteralView::Int(v)),
            None => Err((ErrorKind::ExpectedInteger, span_at(tokens, pos))),
        }
    }
}

/// A float literal: the token is a `Float` and its text is that of a 64-bit
/// float. The literal keeps the text, character by character.
pub open spec fn spec_float(tokens: Seq<Token>, source: Seq<u8>, pos: int) -> Parsed {
    let text = text_at(tokens, source, pos);
    if kind_at(tokens, pos) == TokenType::Float && is_float_text(text) {
        literal_at(tokens, pos, LiteralView::Float(ascii_chars(text)))
    } else {
        Err((ErrorKind::ExpectedFloat, span_at(tokens, pos)))
    }
}

/// An identifier: the token is an `Identifier` and its text is UTF-8.
pub open spec fn spec_ident(tokens: Seq<Token>, source: Seq<u8>, pos: int) -> Parsed {
    let text = text_at(tokens, source, pos);
    if kind_at(tokens, pos) == TokenType::Identifier && valid_utf8(text) {
        Ok((Ast::Ident { name: decode_utf8(text), span: span_at(tokens, pos) }, pos + 1))
    } else {
        Err((ErrorKind::ExpectedIdentifier, span_at(tokens, pos)))
    }
}

/// What stands between the quotes of a string literal: the text without its
/// first and its last byte.
pub open spec fn string_content(text: Seq<u8>) -> Seq<u8> {
    text.subrange(1, text.len() - 1)
}

/// A string literal: the token is a `String` with room for two quotes, and
/// what stands between them is UTF-8. The literal keeps that text as it is
/// written; no escape is read.
pub open spec fn spec_string(tokens: Seq<Token>, source: Seq<u8>, pos: int) -> Parsed {
    let text = text_at(tokens, source, pos);
    if kind_at(tokens, pos) == TokenType::String && text.len() >= 2 && valid_utf8(
        string_content(text),
    ) {
        literal_at(tokens, pos, LiteralView::String(decode_utf8(string_content(text))))
    } else {
        Err((ErrorKind::ExpectedString, span_at(tokens, pos)))
    }
}

/// `true` or `false`.
pub open spec fn spec_bool(tokens: Seq<Token>, pos: int) -> Parsed {
    match kind_at(tokens, pos) {
        TokenType::True => literal_at(tokens, pos, LiteralView::Bool(true)),
        TokenType::False => literal_at(tokens, pos, LiteralView::Bool(false)),
        _ => Err((ErrorKind::ExpectedBoolean, span_at(tokens, pos))),
    }
}

/// `None`. Another token is reported as a missing boolean.
pub open spec fn spec_none(tokens: Seq<Token>, pos: int) -> Parsed {
    if kind_at(tokens, pos) == TokenType::NoneKeyword {
        literal_at(tokens, pos, LiteralView::NoneValue)
    } else {
        Err((ErrorKind::ExpectedBoolean, span_at(tokens, pos)))
    }
}

/// The type that a type keyword names.
pub open spec fn type_of_keyword(kind: TokenType) -> Option<Type> {
    match kind {
        TokenType::TypeInt => Some(Type::Int),
        TokenType::TypeFloat => Some(Type::Float),
        TokenType::TypeString => Some(Type::String),
        TokenType::TypeBoolean => Some(Type::Bool),
        _ => None,
    }
}

/// A type annotation: one of the four type keywords.
pub open spec fn spec_type(tokens: Seq<Token>, pos: int) -> Result<Type, Failure> {
    match type_of_keyword(kind_at(tokens, pos)) {
        Some(t) => Ok(t),
        None => Err((ErrorKind::ExpectedType, span_at(tokens, pos))),
    }
}

/// The operator that a token is at a level of the binary operators: level 0
/// is `||`, 1 is `&&`, 2 is `+ -`, 3 is `* / %`.
pub open spec fn binary_op(level: int, kind: TokenType) -> Option<BinOp> {
    if level == 0 && kind == TokenType::Or {
        Some(BinOp::Or)
    } else if level == 1 && kind == TokenType::And {
        Some(BinOp::And)
    } else if level == 2 && kind == TokenType::Plus {
        Some(BinOp::Add)
    } else if level == 2 && kind == TokenType::Minus {
        Some(BinOp::Sub)
    } else if level == 3 && kind == TokenType::Star {
        Some(BinOp::Mul)
    } else if level == 3 && kind == TokenType::Slash {
        Some(BinOp::Div)
    } else if level == 3 && kind == TokenType::Mod {
        Some(BinOp::Mod)
    } else {
        None
    }
}

/// The node of a binary operator. Its span is the merge of the spans of its
/// two operands.
pub open spec fn binary_node(op: BinOp, left: Ast, right: Ast) -> Ast {
    Ast::Binary {
        op,
        left: Box::new(left),
        right: Box::new(right),
        span: left.span().merge(right.span()),
    }
}

/// An expression: a `let` or `const` declaration where it starts with that
/// keyword, otherwise an operator expression of the loosest level.
pub open spec fn spec_expr(tokens: Seq<Token>, source: Seq<u8>, pos: int) -> Parsed
    decreases tokens.len() - pos, 11int,
{
    match kind_at(tokens, pos) {
        TokenType::Let => spec_let(tokens, source, span_at(tokens, pos), pos + 1),
        TokenType::Const => spec_const(tokens, source, span_at(tokens, pos), pos + 1),
        _ => spec_binary(tokens, source, 0, pos),
    }
}

/// What follows the keyword `let`, whose span is `start`: the target, then
/// `:` and a type if there is a `:`, then `=` and an initial value if there is
/// a `=`. Without an annotation the type is `Auto`. The span runs from the
/// keyword to the last of these parts.
pub open spec fn spec_let(tokens: Seq<Token>, source: Seq<u8>, start: Span, pos: int) -> Parsed
    decreases tokens.len() - pos, 12int,
{
    match forward(spec_expr(tokens, source, pos), pos, tokens.len() as int) {
        Err(e) => Err(e),
        Ok((target, colon)) => {
            let annotation = if kind_at(tokens, colon) == TokenType::Colon {
                match spec_type(tokens, colon + 1) {
                    Ok(kind) => Ok((kind, span_at(tokens, colon + 1), colon + 2)),
                    Err(e) => Err(e),
                }
            } else {
                Ok((Type::Auto, target.span(), colon))
            };
            match annotation {
                Err(e) => Err(e),
                Ok((kind, end, assign)) => if kind_at(tokens, assign) == TokenType::Assign {
                    match spec_expr(tokens, source, assign + 1) {
                        Err(e) => Err(e),
                        Ok((init, next)) => Ok(
                            (
                                Ast::Let {
                                    target: Box::new(target),
                                    kind,
                                    init: Some(Box::new(init)),
                                    span: start.merge(init.span()),
                                },
                                next,
                            ),
                        ),
                    }
                } else {
                    Ok(
                        (
                            Ast::Let {
                                target: Box::new(target),
                                kind,
                                init: None,
                                span: start.merge(end),
                            },
                            assign,
                        ),
                    )
                },
            }
        },
    }
}

/// What follows the keyword `const`, whose span is `start`: the target, `:`
/// and a type, `=` and a value. Both are owed.
pub open spec fn spec_const(tokens: Seq<Token>, source: Seq<u8>, start: Span, pos: int) -> Parsed
    decreases tokens.len() - pos, 12int,
{
    match forward(spec_expr(tokens, source, pos), pos, tokens.len() as int) {
        Err(e) => Err(e),
        Ok((target, colon)) => if kind_at(tokens, colon) != TokenType::Colon {
            Err((ErrorKind::MissingTypeAnnotation, span_at(tokens, colon)))
        } else {
            match spec_type(tokens, colon + 1) {
                Err(e) => Err(e),
                Ok(kind) => if kind_at(tokens, colon + 2) != TokenType::Assign {
                    Err((ErrorKind::MissingAssignment, span_at(tokens, colon + 2)))
                } else {
                    match spec_expr(tokens, source, colon + 3) {
                        Err(e) => Err(e),
                        Ok((value, next)) => Ok(
                            (
                                Ast::Const {
                                    target: Box::new(target),
                                    kind,
                                    value: Box::new(value),
                                    span: start.merge(value.span()),
                                },
                                next,
                            ),
                        ),
                    }
                },
            }
        },
    }
}

/// The place of a level of the binary operators in the order in which the
/// rules call each other.
pub open spec fn binary_rank(level: int) -> int {
    if 0 <= level < 4 {
        10 - level
    } else {
        6
    }
}

/// An operator expression of level `level`: an operand of the next tighter
/// level, then any number of operators of this level, each with its operand.
/// Level 4 is the level of `**`.
pub open spec fn spec_binary(tokens: Seq<Token>, source: Seq<u8>, level: int, pos: int) -> Parsed
    decreases tokens.len() - pos, binary_rank(level),
{
    if level < 0 || level >= 4 {
        spec_pow(tokens, source, pos)
    } else {
        match forward(spec_binary(tokens, source, level + 1, pos), pos, tokens.len() as int) {
            Err(e) => Err(e),
            Ok((left, next)) => spec_binary_tail(tokens, source, level, left, next),
        }
    }
}

/// The operators of level `level` behind the operand `left`, folded to the left.
pub open spec fn spec_binary_tail(
    tokens: Seq<Token>,
    source: Seq<u8>,
    level: int,
    left: Ast,
    pos: int,
) -> Parsed
    decreases tokens.len() - pos, 0int,
{
    match binary_op(level, kind_at(tokens, pos)) {
        None => Ok((left, pos)),
        Some(op) => match forward(
            spec_binary(tokens, source, level + 1, pos + 1),
            pos,
            tokens.len() as int,
        ) {
            Err(e) => Err(e),
            Ok((right, next)) => spec_binary_tail(
                tokens,
                source,
                level,
                binary_node(op, left, right),
                next,
            ),
        },
    }
}

/// A power: a prefix expression, and behind a `**` another power, so that
/// `a ** b ** c` is `a ** (b ** c)`.
pub open spec fn spec_pow(tokens: Seq<Token>, source: Seq<u8>, pos: int) -> Parsed
    decreases tokens.len() - pos, 5int,
{
    match forward(spec_unary(tokens, source, pos), pos, tokens.len() as int) {
        Err(e) => Err(e),
        Ok((left, next)) => if kind_at(tokens, next) == TokenType::Power {
            match spec_pow(tokens, source, next + 1) {
                Err(e) => Err(e),
                Ok((right, end)) => Ok((binary_node(BinOp::Pow, left, right), end)),
            }
        } else {
            Ok((left, next))
        },
    }
}

/// The node of the prefix operator whose token is at `pos`, around what
/// `operand` yields. Its span runs from the operator to the end of the operand.
pub open spec fn unary_node(tokens: Seq<Token>, pos: int, op: UnaryOp, operand: Parsed) -> Parsed {
    match operand {
        Err(e) => Err(e),
        Ok((expr, next)) => Ok(
            (
                Ast::Unary {
                    op,
                    expr: Box::new(expr),
                    span: span_at(tokens, pos).merge(expr.span()),
                },
                next,
            ),
        ),
    }
}

/// A prefix expression: any number of `+`, `-` and `!` in front of a primary.
/// A `+` leaves no node.
pub open spec fn spec_unary(tokens: Seq<Token>, source: Seq<u8>, pos: int) -> Parsed
    decreases tokens.len() - pos, 4int,
{
    match kind_at(tokens, pos) {
        TokenType::Plus => spec_unary(tokens, source, pos + 1),
        TokenType::Minus => unary_node(
            tokens,
            pos,
            UnaryOp::Neg,
            spec_unary(tokens, source, pos + 1),
        ),
        TokenType::Not => unary_node(
            tokens,
            pos,
            UnaryOp::Not,
            spec_unary(tokens, source, pos + 1),
        ),
        _ => spec_primary(tokens, source, pos),
    }
}

/// A primary: an expression in parentheses, which leaves no node of its own,
/// or a literal, or an identifier.
pub open spec fn spec_primary(tokens: Seq<Token>, source: Seq<u8>, pos: int) -> Parsed
    decreases tokens.len() - pos, 3int,
{
    match kind_at(tokens, pos) {
        TokenType::LParen => match spec_expr(tokens, source, pos + 1) {
            Err(e) => Err(e),
            Ok((expr, close)) => if kind_at(tokens, close) == TokenType::RParen {
                Ok((expr, close + 1))
            } else {
                Err((ErrorKind::UnclosedParenthesis, span_at(tokens, pos)))
            },
        },
        TokenType::String => spec_string(tokens, source, pos),
        TokenType::Int => spec_int(tokens, source, pos),
        TokenType::Float => spec_float(tokens, source, pos),
        TokenType::Identifier => spec_ident(tokens, source, pos),
        TokenType::True | TokenType::False => spec_bool(tokens, pos),
        TokenType::NoneKeyword => spec_none(tokens, pos),
        _ => Err((ErrorKind::InvalidSyntax, span_at(tokens, pos))),
    }
}

/// The expressions from the token at `pos` up to the next `Eof`, each with a
/// `;` behind it, and the index of that `Eof`.
pub open spec fn spec_items(tokens: Seq<Token>, source: Seq<u8>, pos: int) -> Result<
    (Seq<Ast>, int),
    Failure,
>
    decreases tokens.len() - pos,
{
    if kind_at(tokens, pos) == TokenType::Eof {
        Ok((Seq::<Ast>::empty(), pos))
    } else {
        match forward(spec_expr(tokens, source, pos), pos, tokens.len() as int) {
            Err(e) => Err(e),
            Ok((expr, semicolon)) => if kind_at(tokens, semicolon) != TokenType::Semicolon {
                Err((ErrorKind::MissingSemicolon, span_at(tokens, semicolon)))
            } else {
                match spec_items(tokens, source, semicolon + 1) {
                    Err(e) => Err(e),
                    Ok((rest, end)) => Ok((seq![expr] + rest, end)),
                }
            },
        }
    }
}

/// The program from the token at `pos` on: one block of the expressions up to
/// the next `Eof`, whose span runs from the first token to that `Eof`.
pub open spec fn spec_program(tokens: Seq<Token>, source: Seq<u8>, pos: int) -> Parsed {
    match spec_items(tokens, source, pos) {
        Err(e) => Err(e),
        Ok((exprs, end)) => Ok(
            (Ast::Block { exprs, span: span_at(tokens, pos).merge(span_at(tokens, end)) }, end),
        ),
    }
}

/// The trees that the expressions of `exprs` stand for.
pub open spec fn asts_of(exprs: Seq<Expr>) -> Seq<Ast> {
    Seq::new(exprs.len(), |i: int| ast_of(exprs[i]))
}

/// `done`, and behind it the expressions of `rest`; the error of `rest` where
/// it is one.
pub open spec fn prepend_items(done: Seq<Ast>, rest: Result<(Seq<Ast>, int), Failure>) -> Result<
    (Seq<Ast>, int),
    Failure,
> {
    match rest {
        Ok((items, end)) => Ok((done + items, end)),
        Err(e) => Err(e),
    }
}

/// Whether `tokens` can be parsed against `input`.
pub fn check_tokens(tokens: &[Token], input: &[u8]) -> (ok: bool)
    ensures
        ok == tokens_valid(tokens@, input@),
{
    let len = tokens.len();
    if len == 0 {
        return false;
    }
    if tokens[len - 1].token_type != TokenType::Eof {
        return false;
    }
    let mut i: usize = 0;
    while i < len
        invariant
            len == tokens@.len(),
            i <= len,
            forall|j: int|
                0 <= j < i ==> (#[trigger] tokens@[j]).span.start <= tokens@[j].span.end
                    <= input@.len(),
        decreases len - i,
    {
        let span = tokens[i].span;
        if span.start > span.end || span.end > input.len() {
            return false;
        }
        i += 1;
    }
    true
}

/// The operator that a token is at a level of the binary operators.
fn binary_operator(level: u8, kind: TokenType) -> (r: Option<BinOp>)
    ensures
        r == binary_op(level as int, kind),
{
    match (level, kind) {
        (0, TokenType::Or) => Some(BinOp::Or),
        (1, TokenType::And) => Some(BinOp::And),
        (2, TokenType::Plus) => Some(BinOp::Add),
        (2, TokenType::Minus) => Some(BinOp::Sub),
        (3, TokenType::Star) => Some(BinOp::Mul),
        (3, TokenType::Slash) => Some(BinOp::Div),
        (3, TokenType::Mod) => Some(BinOp::Mod),
        _ => None,
    }
}

/// A parser over a borrowed token slice and the source that the tokens were
/// read from. It keeps the index of the token that it looks at.
pub struct Parser<'a> {
    tokens: &'a [Token],
    input: &'a [u8],
    filename: String,
    pos: usize,
}

impl<'a> Parser<'a> {
    #[verifier::type_invariant]
    spec fn well_formed(&self) -> bool {
        &&& tokens_valid(self.tokens@, self.input@)
        &&& self.pos < self.tokens@.len() <= usize::MAX
    }

    /// The tokens that are being parsed.
    pub closed spec fn tokens(&self) -> Seq<Token> {
        self.tokens@
    }

    /// The source that the tokens were read from.
    pub closed spec fn source(&self) -> Seq<u8> {
        self.input@
    }

    /// The name of the file that the source came from.
    pub closed spec fn file(&self) -> Seq<char> {
        self.filename@
    }

    /// The index of the token that the parser looks at.
    pub closed spec fn cursor(&self) -> int {
        self.pos as int
    }

    /// Whether `self` reads the same tokens of the same source as `before`.
    pub open spec fn same_input(&self, before: Self) -> bool {
        &&& self.tokens() == before.tokens()
        &&& self.source() == before.source()
        &&& self.file() == before.file()
    }

    /// Whether `e` is the error of kind `kind` at `span` in the source of `self`.
    pub open spec fn reports(&self, e: CompilerError, kind: ErrorKind, span: Span) -> bool {
        &&& e.kind == kind
        &&& e.span == span
        &&& e.input@ == self.source()
        &&& e.filename@ == self.file()
    }

    /// Whether `self` is `before` after a rule that yields `expected`, and `r`
    /// what the rule yields: the expression of the tree, with the parser behind
    /// it, or the error.
    pub open spec fn yields(
        &self,
        before: Self,
        r: Result<Expr, CompilerError>,
        expected: Parsed,
    ) -> bool {
        &&& self.same_input(before)
        &&& match expected {
            Ok((ast, next)) => {
                &&& r matches Ok(e)
                &&& e@ == ast
                &&& self.cursor() == next
                &&& before.cursor() < next
            },
            Err((kind, span)) => r matches Err(e) && self.reports(e, kind, span),
        }
    }

    /// A parser at the first of `tokens`.
    pub fn new(tokens: &'a [Token], input: &'a [u8], filename: String) -> (parser: Self)
        requires
            tokens_valid(tokens@, input@),
        ensures
            parser.tokens() == tokens@,
            parser.source() == input@,
            parser.file() == filename@,
            parser.cursor() == 0,
    {
        let _ = tokens.len();
        Parser { tokens, input, filename, pos: 0 }
    }

    /// Parses the expressions up to the next `Eof` into one program. An error
    /// leaves the parser where it was.
    pub fn parse(&mut self) -> (r: Result<Program, CompilerError>)
        ensures
            final(self).same_input(*old(self)),
            match spec_program(old(self).tokens(), old(self).source(), old(self).cursor()) {
                Ok((ast, end)) => {
                    &&& r matches Ok(program)
                    &&& program.body@ == ast
                    &&& program.span == ast.span()
                    &&& program.filename@ == old(self).file()
                    &&& final(self).cursor() == end
                },
                Err((kind, span)) => {
                    &&& r matches Err(e)
                    &&& old(self).reports(e, kind, span)
                    &&& final(self).cursor() == old(self).cursor()
                },
            },
    {
        proof {
            use_type_invariant(&*self);
        }
        let begin = self.pos;
        let start = self.peek_unlocked().span;
        let mut exprs: Vec<Expr> = Vec::new();
        while likely(self.peek_kind() != TokenType::Eof)
            invariant
                self.same_input(*old(self)),
                begin == old(self).pos,
                tokens_valid(self.tokens@, self.input@),
                begin <= self.pos < self.tokens@.len(),
                spec_items(self.tokens@, self.input@, begin as int) == prepend_items(
                    asts_of(exprs@),
                    spec_items(self.tokens@, self.input@, self.pos as int),
                ),
            decreases self.tokens@.len() - self.pos,
        {
            let ghost done = asts_of(exprs@);
            let expr = match self.parse_expr() {
                Ok(expr) => expr,
                Err(e) => {
                    proof {
                        use_type_invariant(&*self);
                    }
                    self.pos = begin;
                    return Err(e);
                },
            };
            proof {
                use_type_invariant(&*self);
            }
            if self.eat(TokenType::Semicolon).is_none() {
                let e = self.error(ErrorKind::MissingSemicolon, self.peek_unlocked().span);
                self.pos = begin;
                return Err(e);
            }
            proof {
                use_type_invariant(&*self);
                let rest = spec_items(self.tokens@, self.input@, self.pos as int);
                assert(asts_of(exprs@.push(expr)) =~= done.push(expr@));
                match rest {
                    Ok((items, end)) => {
                        assert(done + (seq![expr@] + items) =~= done.push(expr@) + items);
                    },
                    Err(e) => {},
                }
            }
            exprs.push(expr);
        }
        let span = start.merge(self.peek_unlocked().span);
        let ghost items = asts_of(exprs@);
        let body = Expr::Block { exprs, span };
        assert(body@ == Ast::Block { exprs: items, span }) by {
            assert(body@->Block_exprs =~= items);
        }
        Ok(Program { body, filename: self.filename.clone(), span })
    }

    fn error(&self, kind: ErrorKind, span: Span) -> (e: CompilerError)
        ensures
            self.reports(e, kind, span),
    {
        CompilerError::new(kind, span, self.input, self.filename.clone())
    }

    fn parse_expr(&mut self) -> (r: Result<Expr, CompilerError>)
        ensures
            final(self).yields(
                *old(self),
                r,
                spec_expr(old(self).tokens(), old(self).source(), old(self).cursor()),
            ),
        decreases old(self).tokens@.len() - old(self).pos, 30int,
    {
        match self.peek_kind() {
            TokenType::Let => self.parse_let(),
            TokenType::Const => self.parse_const(),
            _ => self.parse_or(),
        }
    }

    fn parse_let(&mut self) -> (r: Result<Expr, CompilerError>)
        requires
            kind_at(old(self).tokens(), old(self).cursor()) == TokenType::Let,
        ensures
            final(self).yields(
                *old(self),
                r,
                spec_let(
                    old(self).tokens(),
                    old(self).source(),
                    span_at(old(self).tokens(), old(self).cursor()),
                    old(self).cursor() + 1,
                ),
            ),
        decreases old(self).tokens@.len() - old(self).pos, 29int,
    {
        proof {
            use_type_invariant(&*self);
        }
        let start = self.peek_unlocked().span;
        self.advance();
        let target = match self.parse_expr() {
            Ok(target) => target,
            Err(e) => {
                return Err(e);
            },
        };
        proof {
            use_type_invariant(&*self);
        }
        let mut end = *target.span();
        let mut kind = Type::Auto;
        if self.eat(TokenType::Colon).is_some() {
            proof {
                use_type_invariant(&*self);
            }
            end = self.peek_unlocked().span;
            kind = match self.parse_type() {
                Ok(kind) => kind,
                Err(e) => {
                    return Err(e);
                },
            };
        }
        proof {
            use_type_invariant(&*self);
        }
        if self.eat(TokenType::Assign).is_none() {
            return Ok(
                Expr::Let { target: Box::new(target), kind, init: None, span: start.merge(end) },
            );
        }
        let init = match self.parse_expr() {
            Ok(init) => init,
            Err(e) => {
                return Err(e);
            },
        };
        let span = start.merge(*init.span());
        Ok(Expr::Let { target: Box::new(target), kind, init: Some(Box::new(init)), span })
    }

    fn parse_const(&mut self) -> (r: Result<Expr, CompilerError>)
        requires
            kind_at(old(self).tokens(), old(self).cursor()) == TokenType::Const,
        ensures
            final(self).yields(
                *old(self),
                r,
                spec_const(
                    old(self).tokens(),
                    old(self).source(),
                    span_at(old(self).tokens(), old(self).cursor()),
                    old(self).cursor() + 1,
                ),
            ),
        decreases old(self).tokens@.len() - old(self).pos, 29int,
    {
        proof {
            use_type_invariant(&*self);
        }
        let start = self.peek_unlocked().span;
        self.advance();
        let target = match self.parse_expr() {
            Ok(target) => target,
            Err(e) => {
                return Err(e);
            },
        };
        proof {
            use_type_invariant(&*self);
        }
        if self.eat(TokenType::Colon).is_none() {
            return Err(self.error(ErrorKind::MissingTypeAnnotation, self.peek_unlocked().span));
        }
        let kind = match self.parse_type() {
            Ok(kind) => kind,
            Err(e) => {
                return Err(e);
            },
        };
        proof {
            use_type_invariant(&*self);
        }
        if self.eat(TokenType::Assign).is_none() {
            return Err(self.error(ErrorKind::MissingAssignment, self.peek_unlocked().span));
        }
        let value = match self.parse_expr() {
            Ok(value) => value,
            Err(e) => {
                return Err(e);
            },
        };
        let span = start.merge(*value.span());
        Ok(Expr::Const { target: Box::new(target), kind, value: Box::new(value), span })
    }

    /// Reads a type annotation. The parser moves behind it where it is one.
    pub fn parse_type(&mut self) -> (r: Result<Type, CompilerError>)
        ensures
            final(self).same_input(*old(self)),
            match spec_type(old(self).tokens(), old(self).cursor()) {
                Ok(kind) => {
                    &&& r == Ok::<Type, CompilerError>(kind)
                    &&& final(self).cursor() == old(self).cursor() + 1
                },
                Err((kind, span)) => {
                    &&& r matches Err(e)
                    &&& old(self).reports(e, kind, span)
                    &&& final(self).cursor() == old(self).cursor()
                },
            },
    {
        proof {
            use_type_invariant(&*self);
        }
        let kind = match self.peek_kind() {
            TokenType::TypeInt => Type::Int,
            TokenType::TypeFloat => Type::Float,
            TokenType::TypeString => Type::String,
            TokenType::TypeBoolean => Type::Bool,
            _ => {
                return Err(self.error(ErrorKind::ExpectedType, self.peek_unlocked().span));
            },
        };
        self.advance();
        Ok(kind)
    }

    fn parse_or(&mut self) -> (r: Result<Expr, CompilerError>)
        ensures
            final(self).yields(
                *old(self),
                r,
                spec_binary(old(self).tokens(), old(self).source(), 0, old(self).cursor()),
            ),
        decreases old(self).tokens@.len() - old(self).pos, 20int,
    {
        self.parse_binary(0)
    }

    fn parse_and(&mut self) -> (r: Result<Expr, CompilerError>)
        ensures
            final(self).yields(
                *old(self),
                r,
                spec_binary(old(self).tokens(), old(self).source(), 1, old(self).cursor()),
            ),
        decreases old(self).tokens@.len() - old(self).pos, 17int,
    {
        self.parse_binary(1)
    }

    fn parse_add(&mut self) -> (r: Result<Expr, CompilerError>)
        ensures
            final(self).yields(
                *old(self),
                r,
                spec_binary(old(self).tokens(), old(self).source(), 2, old(self).cursor()),
            ),
        decreases old(self).tokens@.len() - old(self).pos, 14int,
    {
        self.parse_binary(2)
    }

    fn parse_mul(&mut self) -> (r: Result<Expr, CompilerError>)
        ensures
            final(self).yields(
                *old(self),
                r,
                spec_binary(old(self).tokens(), old(self).source(), 3, old(self).cursor()),
            ),
        decreases old(self).tokens@.len() - old(self).pos, 11int,
    {
        self.parse_binary(3)
    }

    /// The operand of an operator of level `level`.
    fn parse_operand(&mut self, level: u8) -> (r: Result<Expr, CompilerError>)
        requires
            level < 4,
        ensures
            final(self).yields(
                *old(self),
                r,
                spec_binary(
                    old(self).tokens(),
                    old(self).source(),
                    level + 1,
                    old(self).cursor(),
                ),
            ),
        decreases old(self).tokens@.len() - old(self).pos, 18 - 3 * level,
    {
        match level {
            0 => self.parse_and(),
            1 => self.parse_add(),
            2 => self.parse_mul(),
            _ => self.parse_pow(),
        }
    }

    /// An operator expression of level `level`, folded to the left.
    fn parse_binary(&mut self, level: u8) -> (r: Result<Expr, CompilerError>)
        requires
            level < 4,
        ensures
            final(self).yields(
                *old(self),
                r,
                spec_binary(
                    old(self).tokens(),
                    old(self).source(),
                    level as int,
                    old(self).cursor(),
                ),
            ),
        decreases old(self).tokens@.len() - old(self).pos, 19 - 3 * level,
    {
        let mut left = match self.parse_operand(level) {
            Ok(left) => left,
            Err(e) => {
                return Err(e);
            },
        };
        proof {
            use_type_invariant(&*self);
        }
        loop
            invariant
                self.same_input(*old(self)),
                level < 4,
                old(self).pos < self.pos,
                spec_binary(self.tokens@, self.input@, level as int, old(self).pos as int)
                    == spec_binary_tail(
                    self.tokens@,
                    self.input@,
                    level as int,
                    left@,
                    self.pos as int,
                ),
            decreases self.tokens@.len() - self.pos,
        {
            proof {
                use_type_invariant(&*self);
            }
            let op = match binary_operator(level, self.peek_kind()) {
                Some(op) => op,
                None => {
                    return Ok(left);
                },
            };
            self.advance();
            let right = match self.parse_operand(level) {
                Ok(right) => right,
                Err(e) => {
                    return Err(e);
                },
            };
            proof {
                use_type_invariant(&*self);
            }
            let span = left.span().merge(*right.span());
            left = Expr::Binary { op, left: Box::new(left), right: Box::new(right), span };
        }
    }

    fn parse_pow(&mut self) -> (r: Result<Expr, CompilerError>)
        ensures
            final(self).yields(
                *old(self),
                r,
                spec_pow(old(self).tokens(), old(self).source(), old(self).cursor()),
            ),
        decreases old(self).tokens@.len() - old(self).pos, 5int,
    {
        let left = match self.parse_unary() {
            Ok(left) => left,
            Err(e) => {
                return Err(e);
            },
        };
        proof {
            use_type_invariant(&*self);
        }
        if self.peek_kind() != TokenType::Power {
            return Ok(left);
        }
        self.advance();
        let right = match self.parse_pow() {
            Ok(right) => right,
            Err(e) => {
                return Err(e);
            },
        };
        let span = left.span().merge(*right.span());
        Ok(Expr::Binary { op: BinOp::Pow, left: Box::new(left), right: Box::new(right), span })
    }

    fn parse_unary(&mut self) -> (r: Result<Expr, CompilerError>)
        ensures
            final(self).yields(
                *old(self),
                r,
                spec_unary(old(self).tokens(), old(self).source(), old(self).cursor()),
            ),
        decreases old(self).tokens@.len() - old(self).pos, 4int,
    {
        proof {
            use_type_invariant(&*self);
        }
        let op = match self.peek_kind() {
            TokenType::Plus => {
                self.advance();
                return self.parse_unary();
            },
            TokenType::Minus => UnaryOp::Neg,
            TokenType::Not => UnaryOp::Not,
            _ => {
                return self.parse_primary();
            },
        };
        let start = self.peek_unlocked().span;
        self.advance();
        let expr = match self.parse_unary() {
            Ok(expr) => expr,
            Err(e) => {
                return Err(e);
            },
        };
        let span = start.merge(*expr.span());
        Ok(Expr::Unary { op, expr: Box::new(expr), span })
    }

    fn parse_primary(&mut self) -> (r: Result<Expr, CompilerError>)
        ensures
            final(self).yields(
                *old(self),
                r,
                spec_primary(old(self).tokens(), old(self).source(), old(self).cursor()),
            ),
        decreases old(self).tokens@.len() - old(self).pos, 3int,
    {
        proof {
            use_type_invariant(&*self);
        }
        match self.peek_kind() {
            TokenType::LParen => {
                let left_paren_span = self.peek_unlocked().span;
                self.advance();
                let expr = match self.parse_expr() {
                    Ok(expr) => expr,
                    Err(e) => {
                        return Err(e);
                    },
                };
                proof {
                    use_type_invariant(&*self);
                }
                match self.eat(TokenType::RParen) {
                    None => Err(self.error(ErrorKind::UnclosedParenthesis, left_paren_span)),
                    Some(_) => Ok(expr),
                }
            },
            TokenType::String => self.parse_string(),
            TokenType::Int => self.parse_int(),
            TokenType::Float => self.parse_float(),
            TokenType::Identifier => self.parse_ident(),
            TokenType::True | TokenType::False => self.parse_bool(),
            TokenType::NoneKeyword => self.parse_none(),
            _ => Err(self.error(ErrorKind::InvalidSyntax, self.peek_unlocked().span)),
        }
    }

    /// Reads an integer literal.
    pub fn parse_int(&mut self) -> (r: Result<Expr, CompilerError>)
        ensures
            final(self).yields(
                *old(self),
                r,
                spec_int(old(self).tokens(), old(self).source(), old(self).cursor()),
            ),
    {
        proof {
            use_type_invariant(&*self);
        }
        let token = self.peek_unlocked();
        if token.token_type != TokenType::Int {
            return Err(self.error(ErrorKind::ExpectedInteger, token.span));
        }
        match int_of_text(self.slice(&token.span)) {
            Some(value) => {
                self.advance();
                Ok(Expr::Literal { lit: Literal::Int(value), span: token.span })
            },
            None => Err(self.error(ErrorKind::ExpectedInteger, token.span)),
        }
    }

    /// Reads a float literal.
    pub fn parse_float(&mut self) -> (r: Result<Expr, CompilerError>)
        ensures
            final(self).yields(
                *old(self),
                r,
                spec_float(old(self).tokens(), old(self).source(), old(self).cursor()),
            ),
    {
        proof {
            use_type_invariant(&*self);
        }
        let token = self.peek_unlocked();
        if token.token_type != TokenType::Float {
            return Err(self.error(ErrorKind::ExpectedFloat, token.span));
        }
        let bytes = self.slice(&token.span);
        if !is_float(bytes) {
            return Err(self.error(ErrorKind::ExpectedFloat, token.span));
        }
        proof {
            lemma_float_text_is_ascii(bytes@);
        }
        match core::str::from_utf8(bytes) {
            Ok(text) => {
                self.advance();
                Ok(Expr::Literal { lit: Literal::Float(String::from_str(text)), span: token.span })
            },
            Err(_) => Err(self.error(ErrorKind::ExpectedFloat, token.span)),
        }
    }

    /// Reads an identifier.
    pub fn parse_ident(&mut self) -> (r: Result<Expr, CompilerError>)
        ensures
            final(self).yields(
                *old(self),
                r,
                spec_ident(old(self).tokens(), old(self).source(), old(self).cursor()),
            ),
    {
        proof {
            use_type_invariant(&*self);
        }
        let token = self.peek_unlocked();
        if token.token_type != TokenType::Identifier {
            return Err(self.error(ErrorKind::ExpectedIdentifier, token.span));
        }
        match core::str::from_utf8(self.slice(&token.span)) {
            Ok(text) => {
                self.advance();
                Ok(Expr::Ident { name: String::from_str(text), span: token.span })
            },
            Err(_) => Err(self.error(ErrorKind::ExpectedIdentifier, token.span)),
        }
    }

    /// Reads a string literal.
    pub fn parse_string(&mut self) -> (r: Result<Expr, CompilerError>)
        ensures
            final(self).yields(
                *old(self),
                r,
                spec_string(old(self).tokens(), old(self).source(), old(self).cursor()),
            ),
    {
        proof {
            use_type_invariant(&*self);
        }
        let token = self.peek_unlocked();
        if token.token_type != TokenType::String {
            return Err(self.error(ErrorKind::ExpectedString, token.span));
        }
        let bytes = self.slice(&token.span);
        if bytes.len() < 2 {
            return Err(self.error(ErrorKind::ExpectedString, token.span));
        }
        let content = slice_subrange(bytes, 1, bytes.len() - 1);
        match core::str::from_utf8(content) {
            Ok(text) => {
                self.advance();
                Ok(Expr::Literal { lit: Literal::String(String::from_str(text)), span: token.span })
            },
            Err(_) => Err(self.error(ErrorKind::ExpectedString, token.span)),
        }
    }

    /// Reads `true` or `false`.
    pub fn parse_bool(&mut self) -> (r: Result<Expr, CompilerError>)
        ensures
            final(self).yields(
                *old(self),
                r,
                spec_bool(old(self).tokens(), old(self).cursor()),
            ),
    {
        proof {
            use_type_invariant(&*self);
        }
        let token = self.peek_unlocked();
        let value = match token.token_type {
            TokenType::True => true,
            TokenType::False => false,
            _ => {
                return Err(self.error(ErrorKind::ExpectedBoolean, token.span));
            },
        };
        self.advance();
        Ok(Expr::Literal { lit: Literal::Bool(value), span: token.span })
    }

    /// Reads `None`.
    pub fn parse_none(&mut self) -> (r: Result<Expr, CompilerError>)
        ensures
            final(self).yields(
                *old(self),
                r,
                spec_none(old(self).tokens(), old(self).cursor()),
            ),
    {
        proof {
            use_type_invariant(&*self);
        }
        match self.eat(TokenType::NoneKeyword) {
            None => Err(self.error(ErrorKind::ExpectedBoolean, self.peek_unlocked().span)),
            Some(token) => Ok(Expr::Literal { lit: Literal::NoneValue, span: token.span }),
        }
    }

    /// The bytes of the source under `span`.
    fn slice(&self, span: &Span) -> (r: &'a [u8])
        requires
            span.start <= span.end <= self.source().len(),
        ensures
            r@ == self.source().subrange(span.start as int, span.end as int),
    {
        slice_subrange(self.input, span.start, span.end)
    }

    /// The token that the parser looks at.
    fn peek_unlocked(&self) -> (token: Token)
        ensures
            0 <= self.cursor() < self.tokens().len(),
            token == self.tokens()[self.cursor()],
            token.token_type == kind_at(self.tokens(), self.cursor()),
            token.span == span_at(self.tokens(), self.cursor()),
            token.span.start <= token.span.end <= self.source().len(),
    {
        proof {
            use_type_invariant(self);
        }
        self.tokens[self.pos]
    }

    /// The kind of the token that the parser looks at.
    fn peek_kind(&self) -> (kind: TokenType)
        ensures
            kind == kind_at(self.tokens(), self.cursor()),
    {
        self.peek_unlocked().token_type
    }

    /// Moves behind the token that the parser looks at, which is not an `Eof`.
    fn advance(&mut self)
        requires
            kind_at(old(self).tokens(), old(self).cursor()) != TokenType::Eof,
        ensures
            final(self).same_input(*old(self)),
            final(self).cursor() == old(self).cursor() + 1,
    {
        proof {
            use_type_invariant(&*self);
        }
        self.pos += 1;
    }

    /// Takes the token that the parser looks at if it is of kind `kind`.
    fn eat(&mut self, kind: TokenType) -> (r: Option<Token>)
        requires
            kind != TokenType::Eof,
        ensures
            final(self).same_input(*old(self)),
            r == if kind_at(old(self).tokens(), old(self).cursor()) == kind {
                Some(old(self).tokens()[old(self).cursor()])
            } else {
                None::<Token>
            },
            final(self).cursor() == old(self).cursor() + if r.is_some() {
                1int
            } else {
                0int
            },
    {
        if likely(self.peek_kind() == kind) {
            let token = self.peek_unlocked();
            self.advance();
            Some(token)
        } else {
            None
        }
    }
}

/// Whether `outer` covers `inner`.
pub open spec fn covers(outer: Span, inner: Span) -> bool {
    outer.start <= inner.start && inner.end <= outer.end
}

/// Whether the spans in `ast` fit together: the span of a binary node is the
/// merge of the spans of its operands, the span of every other node covers
/// the spans of its children, and no span ends before it starts.
pub open spec fn well_spanned(ast: Ast) -> bool
    decreases ast,
{
    &&& ast.span().start <= ast.span().end
    &&& match ast {
        Ast::Literal { .. } => true,
        Ast::Ident { .. } => true,
        Ast::Binary { left, right, span, .. } => {
            &&& span == left.span().merge(right.span())
            &&& well_spanned(*left)
            &&& well_spanned(*right)
        },
        Ast::Unary { expr, span, .. } => covers(span, expr.span()) && well_spanned(*expr),
        Ast::Assign { target, value, span } => {
            &&& covers(span, target.span())
            &&& covers(span, value.span())
            &&& well_spanned(*target)
            &&& well_spanned(*value)
        },
        Ast::Block { exprs, span } => forall|i: int|
            0 <= i < exprs.len() ==> covers(span, (#[trigger] exprs[i]).span()) && well_spanned(
                exprs[i],
            ),
        Ast::Let { target, init, span, .. } => {
            &&& covers(span, target.span())
            &&& well_spanned(*target)
            &&& match init {
                Some(e) => covers(span, e.span()) && well_spanned(*e),
                None => true,
            }
        },
        Ast::Const { target, value, span, .. } => {
            &&& covers(span, target.span())
            &&& covers(span, value.span())
            &&& well_spanned(*target)
            &&& well_spanned(*value)
        },
    }
}

/// Whether `span` lies inside what the tokens from `first` up to, but without,
/// `behind` cover.
pub open spec fn within(tokens: Seq<Token>, first: int, behind: int, span: Span) -> bool {
    &&& 0 <= first < behind <= tokens.len()
    &&& tokens[first].span.start <= span.start <= span.end <= tokens[behind - 1].span.end
}

/// Whether `span` is the span of one of the tokens from `first` on.
pub open spec fn is_token_span(tokens: Seq<Token>, first: int, span: Span) -> bool {
    exists|i: int| first <= i < tokens.len() && span == (#[trigger] tokens[i]).span
}

/// What holds of the result of every rule that starts at the token at `pos`.
/// A tree stops behind `pos` and before the last token; and where the tokens
/// stand in the order of the source, its spans fit together and lie inside
/// what the tokens that the rule read cover. An error is at one of the tokens
/// from `pos` on.
pub open spec fn rule_holds(tokens: Seq<Token>, pos: int, r: Parsed) -> bool {
    match r {
        Ok((ast, next)) => {
            &&& pos < next < tokens.len()
            &&& tokens_ordered(tokens) ==> well_spanned(ast) && within(
                tokens,
                pos,
                next,
                ast.span(),
            )
        },
        Err((kind, span)) => is_token_span(tokens, pos, span),
    }
}

proof fn lemma_order(tokens: Seq<Token>, source: Seq<u8>, i: int, j: int)
    requires
        tokens_valid(tokens, source),
        tokens_ordered(tokens),
        0 <= i <= j < tokens.len(),
    ensures
        tokens[i].span.start <= tokens[i].span.end,
        tokens[i].span.start <= tokens[j].span.start,
        tokens[i].span.end <= tokens[j].span.end,
        i < j ==> tokens[i].span.end <= tokens[j].span.start,
{
}

proof fn lemma_literals(tokens: Seq<Token>, source: Seq<u8>, pos: int)
    requires
        tokens_valid(tokens, source),
        0 <= pos < tokens.len(),
        kind_at(tokens, pos) != TokenType::Eof,
    ensures
        rule_holds(tokens, pos, spec_int(tokens, source, pos)),
        rule_holds(tokens, pos, spec_float(tokens, source, pos)),
        rule_holds(tokens, pos, spec_ident(tokens, source, pos)),
        rule_holds(tokens, pos, spec_string(tokens, source, pos)),
        rule_holds(tokens, pos, spec_bool(tokens, pos)),
        rule_holds(tokens, pos, spec_none(tokens, pos)),
{
}

proof fn lemma_expr(tokens: Seq<Token>, source: Seq<u8>, pos: int)
    requires
        tokens_valid(tokens, source),
        0 <= pos < tokens.len(),
    ensures
        rule_holds(tokens, pos, spec_expr(tokens, source, pos)),
    decreases tokens.len() - pos, 11int,
{
    match kind_at(tokens, pos) {
        TokenType::Let => lemma_let(tokens, source, pos),
        TokenType::Const => lemma_const(tokens, source, pos),
        _ => lemma_binary(tokens, source, 0, pos),
    }
}

proof fn lemma_let(tokens: Seq<Token>, source: Seq<u8>, pos: int)
    requires
        tokens_valid(tokens, source),
        0 <= pos < tokens.len(),
        kind_at(tokens, pos) == TokenType::Let,
    ensures
        rule_holds(tokens, pos, spec_let(tokens, source, span_at(tokens, pos), pos + 1)),
    decreases tokens.len() - pos, 10int,
{
    lemma_expr(tokens, source, pos + 1);
    match spec_expr(tokens, source, pos + 1) {
        Err(e) => {},
        Ok((target, colon)) => {
            let typed = kind_at(tokens, colon) == TokenType::Colon && spec_type(tokens, colon + 1)
                is Ok;
            let assign = if typed {
                colon + 2
            } else {
                colon
            };
            if kind_at(tokens, assign) == TokenType::Assign {
                lemma_expr(tokens, source, assign + 1);
            }
            if tokens_ordered(tokens) {
                lemma_order(tokens, source, pos, pos + 1);
                lemma_order(tokens, source, pos, colon - 1);
                lemma_order(tokens, source, pos + 1, colon - 1);
                if typed {
                    lemma_order(tokens, source, colon - 1, colon + 1);
                    lemma_order(tokens, source, pos, colon + 1);
                }
                if kind_at(tokens, assign) == TokenType::Assign {
                    match spec_expr(tokens, source, assign + 1) {
                        Ok((init, next)) => {
                            lemma_order(tokens, source, colon - 1, assign + 1);
                            lemma_order(tokens, source, pos, assign + 1);
                            lemma_order(tokens, source, pos, next - 1);
                        },
                        Err(e) => {},
                    }
                }
            }
        },
    }
}

proof fn lemma_const(tokens: Seq<Token>, source: Seq<u8>, pos: int)
    requires
        tokens_valid(tokens, source),
        0 <= pos < tokens.len(),
        kind_at(tokens, pos) == TokenType::Const,
    ensures
        rule_holds(tokens, pos, spec_const(tokens, source, span_at(tokens, pos), pos + 1)),
    decreases tokens.len() - pos, 10int,
{
    lemma_expr(tokens, source, pos + 1);
    match spec_expr(tokens, source, pos + 1) {
        Err(e) => {},
        Ok((target, colon)) => {
            if kind_at(tokens, colon) == TokenType::Colon && spec_type(tokens, colon + 1) is Ok
                && kind_at(tokens, colon + 2) == TokenType::Assign {
                lemma_expr(tokens, source, colon + 3);
                match spec_expr(tokens, source, colon + 3) {
                    Ok((value, next)) => {
                        if tokens_ordered(tokens) {
                            lemma_order(tokens, source, pos, pos + 1);
                            lemma_order(tokens, source, pos + 1, colon - 1);
                            lemma_order(tokens, source, colon - 1, colon + 3);
                            lemma_order(tokens, source, pos, colon + 3);
                            lemma_order(tokens, source, pos, next - 1);
                        }
                    },
                    Err(e) => {},
                }
            }
        },
    }
}

proof fn lemma_binary(tokens: Seq<Token>, source: Seq<u8>, level: int, pos: int)
    requires
        tokens_valid(tokens, source),
        0 <= pos < tokens.len(),
    ensures
        rule_holds(tokens, pos, spec_binary(tokens, source, level, pos)),
    decreases tokens.len() - pos, binary_rank(level),
{
    if level < 0 || level >= 4 {
        lemma_pow(tokens, source, pos);
    } else {
        lemma_binary(tokens, source, level + 1, pos);
        match spec_binary(tokens, source, level + 1, pos) {
            Err(e) => {},
            Ok((left, next)) => {
                lemma_binary_tail(tokens, source, level, left, pos, next);
            },
        }
    }
}

proof fn lemma_binary_tail(
    tokens: Seq<Token>,
    source: Seq<u8>,
    level: int,
    left: Ast,
    first: int,
    pos: int,
)
    requires
        tokens_valid(tokens, source),
        0 <= level < 4,
        0 <= first < pos < tokens.len(),
        tokens_ordered(tokens) ==> well_spanned(left) && within(tokens, first, pos, left.span()),
    ensures
        rule_holds(tokens, first, spec_binary_tail(tokens, source, level, left, pos)),
    decreases tokens.len() - pos, 0int,
{
    match binary_op(level, kind_at(tokens, pos)) {
        None => {},
        Some(op) => {
            lemma_binary(tokens, source, level + 1, pos + 1);
            match spec_binary(tokens, source, level + 1, pos + 1) {
                Err(e) => {},
                Ok((right, next)) => {
                    if tokens_ordered(tokens) {
                        lemma_order(tokens, source, first, pos + 1);
                        lemma_order(tokens, source, pos - 1, next - 1);
                    }
                    lemma_binary_tail(
                        tokens,
                        source,
                        level,
                        binary_node(op, left, right),
                        first,
                        next,
                    );
                },
            }
        },
    }
}

proof fn lemma_pow(tokens: Seq<Token>, source: Seq<u8>, pos: int)
    requires
        tokens_valid(tokens, source),
        0 <= pos < tokens.len(),
    ensures
        rule_holds(tokens, pos, spec_pow(tokens, source, pos)),
    decreases tokens.len() - pos, 5int,
{
    lemma_unary(tokens, source, pos);
    match spec_unary(tokens, source, pos) {
        Err(e) => {},
        Ok((left, next)) => {
            if kind_at(tokens, next) == TokenType::Power {
                lemma_pow(tokens, source, next + 1);
                match spec_pow(tokens, source, next + 1) {
                    Ok((right, end)) => {
                        if tokens_ordered(tokens) {
                            lemma_order(tokens, source, pos, next + 1);
                            lemma_order(tokens, source, next - 1, end - 1);
                        }
                    },
                    Err(e) => {},
                }
            }
        },
    }
}

proof fn lemma_unary(tokens: Seq<Token>, source: Seq<u8>, pos: int)
    requires
        tokens_valid(tokens, source),
        0 <= pos < tokens.len(),
    ensures
        rule_holds(tokens, pos, spec_unary(tokens, source, pos)),
    decreases tokens.len() - pos, 4int,
{
    match kind_at(tokens, pos) {
        TokenType::Plus | TokenType::Minus | TokenType::Not => {
            lemma_unary(tokens, source, pos + 1);
            match spec_unary(tokens, source, pos + 1) {
                Ok((expr, next)) => {
                    if tokens_ordered(tokens) {
                        lemma_order(tokens, source, pos, pos + 1);
                        lemma_order(tokens, source, pos, next - 1);
                    }
                },
                Err(e) => {},
            }
        },
        _ => lemma_primary(tokens, source, pos),
    }
}

proof fn lemma_primary(tokens: Seq<Token>, source: Seq<u8>, pos: int)
    requires
        tokens_valid(tokens, source),
        0 <= pos < tokens.len(),
    ensures
        rule_holds(tokens, pos, spec_primary(tokens, source, pos)),
    decreases tokens.len() - pos, 3int,
{
    if kind_at(tokens, pos) == TokenType::LParen {
        lemma_expr(tokens, source, pos + 1);
        match spec_expr(tokens, source, pos + 1) {
            Ok((expr, close)) => {
                if tokens_ordered(tokens) {
                    lemma_order(tokens, source, pos, pos + 1);
                    lemma_order(tokens, source, close - 1, close);
                }
            },
            Err(e) => {},
        }
    } else if kind_at(tokens, pos) != TokenType::Eof {
        lemma_literals(tokens, source, pos);
    }
}

/// Every rule stops behind the token at which it starts and before the last
/// token, so `forward` changes none of the results that it is applied to.
pub proof fn lemma_rules_move_forward(tokens: Seq<Token>, source: Seq<u8>, level: int, pos: int)
    requires
        tokens_valid(tokens, source),
        0 <= pos < tokens.len(),
    ensures
        forward(spec_expr(tokens, source, pos), pos, tokens.len() as int) == spec_expr(
            tokens,
            source,
            pos,
        ),
        forward(spec_binary(tokens, source, level, pos), pos, tokens.len() as int) == spec_binary(
            tokens,
            source,
            level,
            pos,
        ),
        forward(spec_unary(tokens, source, pos), pos, tokens.len() as int) == spec_unary(
            tokens,
            source,
            pos,
        ),
{
    lemma_expr(tokens, source, pos);
    lemma_binary(tokens, source, level, pos);
    lemma_unary(tokens, source, pos);
}

/// Span coverage for expressions. Where the tokens stand in the order of the
/// source, every expression that parses has spans that fit together, and its
/// own span lies inside what the tokens that it was parsed from cover.
pub proof fn lemma_expr_spans(tokens: Seq<Token>, source: Seq<u8>, pos: int)
    requires
        tokens_valid(tokens, source),
        tokens_ordered(tokens),
        0 <= pos < tokens.len(),
    ensures
        spec_expr(tokens, source, pos) matches Ok((ast, next)) ==> well_spanned(ast) && within(
            tokens,
            pos,
            next,
            ast.span(),
        ),
{
    lemma_expr(tokens, source, pos);
}

proof fn lemma_items(tokens: Seq<Token>, source: Seq<u8>, first: int, pos: int)
    requires
        tokens_valid(tokens, source),
        0 <= first <= pos < tokens.len(),
    ensures
        match spec_items(tokens, source, pos) {
            Ok((items, end)) => {
                &&& pos <= end < tokens.len()
                &&& kind_at(tokens, end) == TokenType::Eof
                &&& tokens_ordered(tokens) ==> forall|i: int|
                    0 <= i < items.len() ==> well_spanned(#[trigger] items[i]) && covers(
                        span_at(tokens, first).merge(span_at(tokens, end)),
                        items[i].span(),
                    )
            },
            Err((kind, span)) => is_token_span(tokens, pos, span),
        },
    decreases tokens.len() - pos,
{
    if kind_at(tokens, pos) != TokenType::Eof {
        lemma_expr(tokens, source, pos);
        match spec_expr(tokens, source, pos) {
            Err(e) => {},
            Ok((expr, semicolon)) => {
                if kind_at(tokens, semicolon) == TokenType::Semicolon {
                    lemma_items(tokens, source, first, semicolon + 1);
                    match spec_items(tokens, source, semicolon + 1) {
                        Ok((rest, end)) => {
                            if tokens_ordered(tokens) {
                                lemma_order(tokens, source, first, pos);
                                lemma_order(tokens, source, semicolon - 1, end);
                            }
                        },
                        Err(e) => {},
                    }
                }
            },
        }
    }
}

/// Span coverage for programs. A program that parses is one block that ends
/// at an `Eof`; its span is the merge of the spans of the token at which it
/// starts and of that `Eof`; and where the tokens stand in the order of the
/// source, the spans of the whole tree fit together. A program that does not
/// parse fails at one of its tokens.
pub proof fn lemma_program_spans(tokens: Seq<Token>, source: Seq<u8>, pos: int)
    requires
        tokens_valid(tokens, source),
        0 <= pos < tokens.len(),
    ensures
        match spec_program(tokens, source, pos) {
            Ok((ast, end)) => {
                &&& ast is Block
                &&& pos <= end < tokens.len()
                &&& kind_at(tokens, end) == TokenType::Eof
                &&& ast.span() == span_at(tokens, pos).merge(span_at(tokens, end))
                &&& tokens_ordered(tokens) ==> well_spanned(ast)
            },
            Err((kind, span)) => is_token_span(tokens, pos, span),
        },
{
    lemma_items(tokens, source, pos, pos);
    if tokens_ordered(tokens) {
        match spec_items(tokens, source, pos) {
            Ok((items, end)) => {
                lemma_order(tokens, source, pos, end);
            },
            Err(e) => {},
        }
    }
}

/// Span coverage from the source on. Where a source lexes and its tokens
/// parse, the tokens can be parsed against it, and the spans of the tree fit
/// together.
pub proof fn lemma_source_spans(source: Seq<u8>)
    requires
        source.len() <= usize::MAX,
        lex_all(source, 0) is Ok,
    ensures
        tokens_valid(lex_all(source, 0).unwrap(), source),
        tokens_ordered(lex_all(source, 0).unwrap()),
        spec_program(lex_all(source, 0).unwrap(), source, 0) matches Ok((ast, end))
            ==> well_spanned(ast),
{
    let tokens = lex_all(source, 0).unwrap();
    lemma_round_trip(source, 0);
    lemma_lexed_in_order(source, 0);
    reveal(token_fits);
    lemma_program_spans(tokens, source, 0);
}

/// Lexes the whole of `input` and parses its tokens: the program, or the
/// first error of either step.
pub fn parse_source(filename: &str, input: &[u8]) -> (r: Result<Program, CompilerError>)
    ensures
        match lex_all(input@, 0) {
            Err((kind, span)) => {
                &&& r matches Err(e)
                &&& e.kind == kind
                &&& e.span == span
                &&& e.input@ == input@
                &&& e.filename@ == filename@
            },
            Ok(tokens) => match spec_program(tokens, input@, 0) {
                Ok((ast, end)) => {
                    &&& r matches Ok(program)
                    &&& program.body@ == ast
                    &&& program.span == ast.span()
                    &&& program.filename@ == filename@
                },
                Err((kind, span)) => {
                    &&& r matches Err(e)
                    &&& e.kind == kind
                    &&& e.span == span
                    &&& e.input@ == input@
                    &&& e.filename@ == filename@
                },
            },
        },
{
    let _ = input.len();
    let tokens = match tokenize(filename, input) {
        Ok(tokens) => tokens,
        Err(e) => {
            return Err(e);
        },
    };
    proof {
        lemma_source_spans(input@);
    }
    let mut parser = Parser::new(tokens.as_slice(), input, String::from_str(filename));
    parser.parse()
}

} // verus!
