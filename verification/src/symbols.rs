//! The operators and punctuation marks, keyed by their first byte.

use crate::token::TokenType;
use vstd::prelude::*;

verus! {

/// How a symbol byte becomes a token: alone, or together with the byte after it.
///
/// `max_len` is 0 for a byte that begins no token, 1 for one that stands alone,
/// 2 for one that may be followed by `expect1` (giving `double1`) or by
/// `expect2` (giving `double2`). A slot that a rule does not use holds 0 and
/// `Unknown`.
#[derive(Debug, Clone, Copy, PartialEq, Eq, Structural)]
pub struct SymbolRule {
    pub max_len: u8,
    pub expect1: u8,
    pub expect2: u8,
    pub single: TokenType,
    pub double1: TokenType,
    pub double2: TokenType,
}

/// The rule of a byte that begins no token.
pub open spec fn no_rule() -> SymbolRule {
    SymbolRule {
        max_len: 0,
        expect1: 0,
        expect2: 0,
        single: TokenType::Unknown,
        double1: TokenType::Unknown,
        double2: TokenType::Unknown,
    }
}

/// The rule of a byte that stands alone as `single`.
pub open spec fn alone_rule(single: TokenType) -> SymbolRule {
    SymbolRule {
        max_len: 1,
        expect1: 0,
        expect2: 0,
        single,
        double1: TokenType::Unknown,
        double2: TokenType::Unknown,
    }
}

/// The rule of a byte that is `single` alone and `double1` in front of `expect1`.
pub open spec fn pair_rule(single: TokenType, expect1: u8, double1: TokenType) -> SymbolRule {
    SymbolRule { max_len: 2, expect1, expect2: 0, single, double1, double2: TokenType::Unknown }
}

/// The rule of a byte that is `single` alone, `double1` in front of `expect1`
/// and `double2` in front of `expect2`.
pub open spec fn triple_rule(
    single: TokenType,
    expect1: u8,
    double1: TokenType,
    expect2: u8,
    double2: TokenType,
) -> SymbolRule {
    SymbolRule { max_len: 2, expect1, expect2, single, double1, double2 }
}

impl SymbolRule {
    fn none() -> (r: SymbolRule)
        ensures
            r == no_rule(),
    {
        SymbolRule {
            max_len: 0,
            expect1: 0,
            expect2: 0,
            single: TokenType::Unknown,
            double1: TokenType::Unknown,
            double2: TokenType::Unknown,
        }
    }

    fn alone(single: TokenType) -> (r: SymbolRule)
        ensures
            r == alone_rule(single),
    {
        SymbolRule {
            max_len: 1,
            expect1: 0,
            expect2: 0,
            single,
            double1: TokenType::Unknown,
            double2: TokenType::Unknown,
        }
    }

    fn pair(single: TokenType, expect1: u8, double1: TokenType) -> (r: SymbolRule)
        ensures
            r == pair_rule(single, expect1, double1),
    {
        SymbolRule {
            max_len: 2,
            expect1,
            expect2: 0,
            single,
            double1,
            double2: TokenType::Unknown,
        }
    }

    fn triple(
        single: TokenType,
        expect1: u8,
        double1: TokenType,
        expect2: u8,
        double2: TokenType,
    ) -> (r: SymbolRule)
        ensures
            r == triple_rule(single, expect1, double1, expect2, double2),
    {
        SymbolRule { max_len: 2, expect1, expect2, single, double1, double2 }
    }
}

/// The rule of each byte.
pub open spec fn spec_symbol_rule(b: u8) -> SymbolRule {
    match b {
        // `!`
        0x21 => pair_rule(TokenType::Not, 0x3D, TokenType::Ne),
        // `%`
        0x25 => alone_rule(TokenType::Mod),
        // `&`
        0x26 => pair_rule(TokenType::Ampersand, 0x26, TokenType::And),
        // `(`
        0x28 => alone_rule(TokenType::LParen),
        // `)`
        0x29 => alone_rule(TokenType::RParen),
        // `*`
        0x2A => pair_rule(TokenType::Star, 0x2A, TokenType::Power),
        // `+`
        0x2B => alone_rule(TokenType::Plus),
        // `,`
        0x2C => alone_rule(TokenType::Comma),
        // `-`
        0x2D => alone_rule(TokenType::Minus),
        // `.`
        0x2E => alone_rule(TokenType::Dot),
        // `/`
        0x2F => alone_rule(TokenType::Slash),
        // `:`
        0x3A => alone_rule(TokenType::Colon),
        // `;`
        0x3B => alone_rule(TokenType::Semicolon),
        // `<`
        0x3C => triple_rule(
            TokenType::Lt,
            0x3D,
            TokenType::LtE,
            0x3C,
            TokenType::BitwiseShl,
        ),
        // `=`
        0x3D => pair_rule(TokenType::Assign, 0x3D, TokenType::Eq),
        // `>`
        0x3E => triple_rule(
            TokenType::Gt,
            0x3D,
            TokenType::GtE,
            0x3E,
            TokenType::BitwiseShr,
        ),
        // `[`
        0x5B => alone_rule(TokenType::LBracket),
        // `]`
        0x5D => alone_rule(TokenType::RBracket),
        // `^`
        0x5E => alone_rule(TokenType::BitwiseXor),
        // `{`
        0x7B => alone_rule(TokenType::LBrace),
        // `|`
        0x7C => pair_rule(TokenType::Pipe, 0x7C, TokenType::Or),
        // `}`
        0x7D => alone_rule(TokenType::RBrace),
        // `~`
        0x7E => alone_rule(TokenType::Tilde),
        _ => no_rule(),
    }
}

/// The rule of `b`.
#[verifier::when_used_as_spec(spec_symbol_rule)]
pub fn symbol_rule(b: u8) -> (r: SymbolRule)
    ensures
        r == spec_symbol_rule(b),
{
    match b {
        // `!`
        0x21 => SymbolRule::pair(TokenType::Not, 0x3D, TokenType::Ne),
        // `%`
        0x25 => SymbolRule::alone(TokenType::Mod),
        // `&`
        0x26 => SymbolRule::pair(TokenType::Ampersand, 0x26, TokenType::And),
        // `(`
        0x28 => SymbolRule::alone(TokenType::LParen),
        // `)`
        0x29 => SymbolRule::alone(TokenType::RParen),
        // `*`
        0x2A => SymbolRule::pair(TokenType::Star, 0x2A, TokenType::Power),
        // `+`
        0x2B => SymbolRule::alone(TokenType::Plus),
        // `,`
        0x2C => SymbolRule::alone(TokenType::Comma),
        // `-`
        0x2D => SymbolRule::alone(TokenType::Minus),
        // `.`
        0x2E => SymbolRule::alone(TokenType::Dot),
        // `/`
        0x2F => SymbolRule::alone(TokenType::Slash),
        // `:`
        0x3A => SymbolRule::alone(TokenType::Colon),
        // `;`
        0x3B => SymbolRule::alone(TokenType::Semicolon),
        // `<`
        0x3C => SymbolRule::triple(
            TokenType::Lt,
            0x3D,
            TokenType::LtE,
            0x3C,
            TokenType::BitwiseShl,
        ),
        // `=`
        0x3D => SymbolRule::pair(TokenType::Assign, 0x3D, TokenType::Eq),
        // `>`
        0x3E => SymbolRule::triple(
            TokenType::Gt,
            0x3D,
            TokenType::GtE,
            0x3E,
            TokenType::BitwiseShr,
        ),
        // `[`
        0x5B => SymbolRule::alone(TokenType::LBracket),
        // `]`
        0x5D => SymbolRule::alone(TokenType::RBracket),
        // `^`
        0x5E => SymbolRule::alone(TokenType::BitwiseXor),
        // `{`
        0x7B => SymbolRule::alone(TokenType::LBrace),
        // `|`
        0x7C => SymbolRule::pair(TokenType::Pipe, 0x7C, TokenType::Or),
        // `}`
        0x7D => SymbolRule::alone(TokenType::RBrace),
        // `~`
        0x7E => SymbolRule::alone(TokenType::Tilde),
        _ => SymbolRule::none(),
    }
}

/// Whether the byte `next` behind a symbol byte makes the longer token `double`
/// of it, which it does where it is the byte `expect` that the rule waits for.
/// A slot that a rule does not use makes no token.
pub open spec fn extends(double: TokenType, expect: u8, next: Option<u8>) -> bool {
    double != TokenType::Unknown && next == Some(expect)
}

/// The token that begins with the symbol byte `b`, and its length in bytes,
/// where `next` is the byte after `b` if there is one. The longer token wins;
/// a byte without a rule begins no token.
pub open spec fn symbol_token(b: u8, next: Option<u8>) -> Option<(TokenType, int)> {
    let rule = spec_symbol_rule(b);
    if rule.max_len == 0 {
        None
    } else if rule.max_len == 2 && extends(rule.double1, rule.expect1, next) {
        Some((rule.double1, 2))
    } else if rule.max_len == 2 && extends(rule.double2, rule.expect2, next) {
        Some((rule.double2, 2))
    } else {
        Some((rule.single, 1))
    }
}

/// Every byte of the symbol class has a rule, and no rule yields `Unknown`.
pub proof fn lemma_symbols_have_rules(b: u8, next: Option<u8>)
    requires
        crate::bytes::is_symbol(b),
    ensures
        symbol_token(b, next) matches Some((kind, len)) && kind != TokenType::Unknown && 1
            <= len <= 2,
{
}

/// How an operator or punctuation mark is written; nothing for the other kinds.
pub open spec fn spelling(kind: TokenType) -> Option<Seq<u8>> {
    match kind {
        TokenType::Assign => Some(seq![0x3Du8]),
        TokenType::Plus => Some(seq![0x2Bu8]),
        TokenType::Minus => Some(seq![0x2Du8]),
        TokenType::Star => Some(seq![0x2Au8]),
        TokenType::Slash => Some(seq![0x2Fu8]),
        TokenType::Mod => Some(seq![0x25u8]),
        TokenType::Power => Some(seq![0x2Au8, 0x2Au8]),
        TokenType::LParen => Some(seq![0x28u8]),
        TokenType::RParen => Some(seq![0x29u8]),
        TokenType::LBrace => Some(seq![0x7Bu8]),
        TokenType::RBrace => Some(seq![0x7Du8]),
        TokenType::LBracket => Some(seq![0x5Bu8]),
        TokenType::RBracket => Some(seq![0x5Du8]),
        TokenType::Comma => Some(seq![0x2Cu8]),
        TokenType::Semicolon => Some(seq![0x3Bu8]),
        TokenType::Colon => Some(seq![0x3Au8]),
        TokenType::Dot => Some(seq![0x2Eu8]),
        TokenType::Ne => Some(seq![0x21u8, 0x3Du8]),
        TokenType::Lt => Some(seq![0x3Cu8]),
        TokenType::Gt => Some(seq![0x3Eu8]),
        TokenType::LtE => Some(seq![0x3Cu8, 0x3Du8]),
        TokenType::GtE => Some(seq![0x3Eu8, 0x3Du8]),
        TokenType::Eq => Some(seq![0x3Du8, 0x3Du8]),
        TokenType::Not => Some(seq![0x21u8]),
        TokenType::And => Some(seq![0x26u8, 0x26u8]),
        TokenType::Or => Some(seq![0x7Cu8, 0x7Cu8]),
        TokenType::Ampersand => Some(seq![0x26u8]),
        TokenType::Pipe => Some(seq![0x7Cu8]),
        TokenType::Tilde => Some(seq![0x7Eu8]),
        TokenType::BitwiseXor => Some(seq![0x5Eu8]),
        TokenType::BitwiseShl => Some(seq![0x3Cu8, 0x3Cu8]),
        TokenType::BitwiseShr => Some(seq![0x3Eu8, 0x3Eu8]),
        _ => None,
    }
}

/// The token that the rules make of a symbol byte and the byte behind it is
/// the one that those bytes spell.
pub proof fn lemma_symbol_spelling(b: u8, next: Option<u8>)
    ensures
        match symbol_token(b, next) {
            Some((kind, len)) => if len == 1 {
                spelling(kind) == Some(seq![b])
            } else {
                len == 2 && next is Some && spelling(kind) == Some(seq![b, next.unwrap()])
            },
            None => true,
        },
{
}

} // verus!
