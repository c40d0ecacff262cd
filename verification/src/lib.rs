//! Front end of a small expression-oriented language: a byte-level lexer and a
//! precedence-climbing parser, with span-located diagnostics.
//!
//! Source bytes go through [`lexer`] into tokens and through [`parser`] into a
//! syntax tree ([`ast`]); the first error on the way ends the work and says
//! where it is ([`error`]). Each step is laid down by a function of the
//! source alone, and the code is proved to compute it:
//!
//! - [`lexer::lex`] says what one call of [`Lexer::next_token`] yields, and
//!   [`lexer::lex_all`] what [`lexer::tokenize`] yields;
//! - [`parser::spec_program`] says what [`Parser::parse`] yields;
//! - [`error::error_text`] says how an error is shown.
//!
//! What holds of every source is stated and proved beside them: the tokens
//! and the gaps between them rebuild the source, the end of the source is
//! reached once and for all, the spans of a tree fit together, and on UTF-8
//! every token is UTF-8 again ([`boundary`]).
//!
//! The few functions that are taken on trust stand in [`assumed`].

pub mod assumed;
pub mod ast;
pub mod boundary;
pub mod bytes;
pub mod error;
pub mod lexer;
pub mod literal;
pub mod parser;
pub mod span;
pub mod symbols;
pub mod token;

pub use error::{CompilerError, ErrorKind};
pub use lexer::Lexer;
pub use parser::Parser;
pub use span::Span;
pub use token::{Token, TokenType};
