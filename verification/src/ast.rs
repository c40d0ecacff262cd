//! The syntax tree. Everything is an expression, and every node carries the
//! span of the source that it was parsed from.

use crate::span::Span;
use vstd::prelude::*;

verus! {

#[derive(Debug, Clone, Copy, PartialEq, Eq, Structural)]
pub enum BinOp {
    Add,
    Sub,
    Mul,
    Div,
    Mod,
    Pow,
    Eq,
    Lt,
    Gt,
    Lte,
    Gte,
    LtE,
    GtE,
    EqE,
    Neq,
    And,
    Or,
}

/// The prefix operators. A prefix `+` changes nothing and leaves no node.
#[derive(Debug, Clone, Copy, PartialEq, Eq, Structural)]
pub enum UnaryOp {
    /// `-`
    Neg,
    /// `!`
    Not,
}

/// The types that a declaration can name. `Auto` stands for a type that is
/// left to be found out.
#[derive(Debug, Clone, Copy, PartialEq, Eq, Structural)]
pub enum Type {
    Auto,
    Int,
    Float,
    Bool,
    String,
    NoneType,
}

/// A literal value. A float is kept as it is written in the source: digits,
/// fraction and exponent, unread.
#[derive(Debug, Clone, PartialEq)]
pub enum Literal {
    Int(i64),
    Float(String),
    String(String),
    Bool(bool),
    NoneValue,
}

/// What a `Literal` stands for in specifications.
pub enum LiteralView {
    Int(i64),
    Float(Seq<char>),
    String(Seq<char>),
    Bool(bool),
    NoneValue,
}

impl View for Literal {
    type V = LiteralView;

    open spec fn view(&self) -> LiteralView {
        match self {
            Literal::Int(v) => LiteralView::Int(*v),
            Literal::Float(text) => LiteralView::Float(text@),
            Literal::String(text) => LiteralView::String(text@),
            Literal::Bool(b) => LiteralView::Bool(*b),
            Literal::NoneValue => LiteralView::NoneValue,
        }
    }
}

#[derive(Debug, PartialEq)]
#[allow(inconsistent_fields)]
pub enum Expr {
    Literal { lit: Literal, span: Span },
    Ident { name: String, span: Span },
    Binary { op: BinOp, left: Box<Expr>, right: Box<Expr>, span: Span },
    Unary { op: UnaryOp, expr: Box<Expr>, span: Span },
    Assign { target: Box<Expr>, value: Box<Expr>, span: Span },
    Block { exprs: Vec<Expr>, span: Span },
    Let { target: Box<Expr>, kind: Type, init: Option<Box<Expr>>, span: Span },
    Const { target: Box<Expr>, kind: Type, value: Box<Expr>, span: Span },
}

/// What an `Expr` stands for in specifications: the same tree, with texts as
/// sequences of characters and lists as sequences.
#[allow(inconsistent_fields)]
pub enum Ast {
    Literal { lit: LiteralView, span: Span },
    Ident { name: Seq<char>, span: Span },
    Binary { op: BinOp, left: Box<Ast>, right: Box<Ast>, span: Span },
    Unary { op: UnaryOp, expr: Box<Ast>, span: Span },
    Assign { target: Box<Ast>, value: Box<Ast>, span: Span },
    Block { exprs: Seq<Ast>, span: Span },
    Let { target: Box<Ast>, kind: Type, init: Option<Box<Ast>>, span: Span },
    Const { target: Box<Ast>, kind: Type, value: Box<Ast>, span: Span },
}

impl Ast {
    /// The span of the node.
    pub open spec fn span(self) -> Span {
        match self {
            Ast::Literal { span, .. } => span,
            Ast::Ident { span, .. } => span,
            Ast::Binary { span, .. } => span,
            Ast::Unary { span, .. } => span,
            Ast::Assign { span, .. } => span,
            Ast::Block { span, .. } => span,
            Ast::Let { span, .. } => span,
            Ast::Const { span, .. } => span,
        }
    }
}

/// The tree that `e` stands for.
pub open spec fn ast_of(e: Expr) -> Ast
    decreases e,
{
    match e {
        Expr::Literal { lit, span } => Ast::Literal { lit: lit@, span },
        Expr::Ident { name, span } => Ast::Ident { name: name@, span },
        Expr::Binary { op, left, right, span } => Ast::Binary {
            op,
            left: Box::new(ast_of(*left)),
            right: Box::new(ast_of(*right)),
            span,
        },
        Expr::Unary { op, expr, span } => Ast::Unary { op, expr: Box::new(ast_of(*expr)), span },
        Expr::Assign { target, value, span } => Ast::Assign {
            target: Box::new(ast_of(*target)),
            value: Box::new(ast_of(*value)),
            span,
        },
        Expr::Block { exprs, span } => Ast::Block {
            exprs: Seq::new(
                exprs@.len(),
                |i: int|
                    if 0 <= i < exprs.len() {
                        ast_of(exprs[i])
                    } else {
                        arbitrary()
                    },
            ),
            span,
        },
        Expr::Let { target, kind, init, span } => Ast::Let {
            target: Box::new(ast_of(*target)),
            kind,
            init: match init {
                Some(e) => Some(Box::new(ast_of(*e))),
                None => None,
            },
            span,
        },
        Expr::Const { target, kind, value, span } => Ast::Const {
            target: Box::new(ast_of(*target)),
            kind,
            value: Box::new(ast_of(*value)),
            span,
        },
    }
}

impl View for Expr {
    type V = Ast;

    open spec fn view(&self) -> Ast {
        ast_of(*self)
    }
}

impl Clone for Expr {
    fn clone(&self) -> (r: Self)
        ensures
            r@ == self@,
        decreases self,
    {
        match self {
            Expr::Literal { lit, span } => Expr::Literal { lit: copy_literal(lit), span: *span },
            Expr::Ident { name, span } => Expr::Ident { name: name.clone(), span: *span },
            Expr::Binary { op, left, right, span } => Expr::Binary {
                op: *op,
                left: Box::new((**left).clone()),
                right: Box::new((**right).clone()),
                span: *span,
            },
            Expr::Unary { op, expr, span } => Expr::Unary {
                op: *op,
                expr: Box::new((**expr).clone()),
                span: *span,
            },
            Expr::Assign { target, value, span } => Expr::Assign {
                target: Box::new((**target).clone()),
                value: Box::new((**value).clone()),
                span: *span,
            },
            Expr::Block { exprs, span } => {
                let mut copies: Vec<Expr> = Vec::with_capacity(exprs.len());
                let mut i: usize = 0;
                while i < exprs.len()
                    invariant
                        decreases_to!(self => exprs),
                        i <= exprs.len(),
                        copies.len() == i,
                        forall|j: int| 0 <= j < i ==> copies[j]@ == exprs[j]@,
                    decreases exprs.len() - i,
                {
                    proof {
                        vstd::std_specs::vec::axiom_vec_index_decreases(*exprs, i as int);
                    }
                    copies.push(exprs[i].clone());
                    i += 1;
                }
                let r = Expr::Block { exprs: copies, span: *span };
                assert(r@->Block_exprs =~= self@->Block_exprs);
                r
            },
            Expr::Let { target, kind, init, span } => Expr::Let {
                target: Box::new((**target).clone()),
                kind: *kind,
                init: match init {
                    Some(e) => Some(Box::new((**e).clone())),
                    None => None,
                },
                span: *span,
            },
            Expr::Const { target, kind, value, span } => Expr::Const {
                target: Box::new((**target).clone()),
                kind: *kind,
                value: Box::new((**value).clone()),
                span: *span,
            },
        }
    }
}

/// A copy of `lit`.
fn copy_literal(lit: &Literal) -> (r: Literal)
    ensures
        r@ == lit@,
{
    match lit {
        Literal::Int(v) => Literal::Int(*v),
        Literal::Float(text) => Literal::Float(text.clone()),
        Literal::String(text) => Literal::String(text.clone()),
        Literal::Bool(b) => Literal::Bool(*b),
        Literal::NoneValue => Literal::NoneValue,
    }
}

impl Expr {
    /// The span of the node.
    pub fn span(&self) -> (r: &Span)
        ensures
            *r == self@.span(),
    {
        match self {
            Expr::Literal { span, .. } => span,
            Expr::Ident { span, .. } => span,
            Expr::Binary { span, .. } => span,
            Expr::Unary { span, .. } => span,
            Expr::Assign { span, .. } => span,
            Expr::Block { span, .. } => span,
            Expr::Let { span, .. } => span,
            Expr::Const { span, .. } => span,
        }
    }
}

/// A parsed source: its top-level expressions as one block.
#[derive(Debug)]
pub struct Program {
    pub body: Expr,
    pub filename: String,
    pub span: Span,
}

} // verus!
