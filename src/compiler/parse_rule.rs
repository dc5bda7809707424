use vstd::prelude::*;

use crate::compiler::precedence::Precedence;
use crate::token::TokenType;

verus! {

/// The handler that a token kind starts, in prefix or infix position.
#[derive(Clone, Copy, Debug, PartialEq, Eq, Structural)]
pub enum ParseFn {
    Grouping,
    Null,
    Binary,
    Unary,
    Number,
    Literal,
    String,
}

/// A row of the Pratt table: what a token does in prefix position, in infix
/// position, and how tightly it binds as an infix operator.
#[derive(Clone, Copy, Debug, PartialEq, Eq, Structural)]
pub struct ParseRule {
    pub prefix: ParseFn,
    pub infix: ParseFn,
    pub precedence: Precedence,
}

/// The Pratt table.
pub open spec fn rule_of(t: TokenType) -> ParseRule {
    match t {
        TokenType::TOKEN_LEFT_PAREN => ParseRule {
            prefix: ParseFn::Grouping,
            infix: ParseFn::Null,
            precedence: Precedence::PREC_NONE,
        },
        TokenType::TOKEN_MINUS => ParseRule {
            prefix: ParseFn::Unary,
            infix: ParseFn::Binary,
            precedence: Precedence::PREC_TERM,
        },
        TokenType::TOKEN_PLUS => ParseRule {
            prefix: ParseFn::Null,
            infix: ParseFn::Binary,
            precedence: Precedence::PREC_TERM,
        },
        TokenType::TOKEN_SLASH | TokenType::TOKEN_STAR => ParseRule {
            prefix: ParseFn::Null,
            infix: ParseFn::Binary,
            precedence: Precedence::PREC_FACTOR,
        },
        TokenType::TOKEN_BANG => ParseRule {
            prefix: ParseFn::Unary,
            infix: ParseFn::Null,
            precedence: Precedence::PREC_NONE,
        },
        TokenType::TOKEN_BANG_EQUAL | TokenType::TOKEN_EQUAL_EQUAL => ParseRule {
            prefix: ParseFn::Null,
            infix: ParseFn::Binary,
            precedence: Precedence::PREC_EQUALITY,
        },
        TokenType::TOKEN_GREATER
        | TokenType::TOKEN_GREATER_EQUAL
        | TokenType::TOKEN_LESS
        | TokenType::TOKEN_LESS_EQUAL => ParseRule {
            prefix: ParseFn::Null,
            infix: ParseFn::Binary,
            precedence: Precedence::PREC_COMPARISON,
        },
        TokenType::TOKEN_STRING => ParseRule {
            prefix: ParseFn::String,
            infix: ParseFn::Null,
            precedence: Precedence::PREC_NONE,
        },
        TokenType::TOKEN_NUMBER => ParseRule {
            prefix: ParseFn::Number,
            infix: ParseFn::Null,
            precedence: Precedence::PREC_NONE,
        },
        TokenType::TOKEN_FALSE | TokenType::TOKEN_TRUE | TokenType::TOKEN_NIL => ParseRule {
            prefix: ParseFn::Literal,
            infix: ParseFn::Null,
            precedence: Precedence::PREC_NONE,
        },
        _ => ParseRule {
            prefix: ParseFn::Null,
            infix: ParseFn::Null,
            precedence: Precedence::PREC_NONE,
        },
    }
}

impl ParseRule {
    pub fn from_token_type(token_type: TokenType) -> (r: Self)
        ensures
            r == rule_of(token_type),
    {
        let (prefix, infix, precedence) = match token_type {
            TokenType::TOKEN_LEFT_PAREN => (ParseFn::Grouping, ParseFn::Null, Precedence::PREC_NONE),
            TokenType::TOKEN_MINUS => (ParseFn::Unary, ParseFn::Binary, Precedence::PREC_TERM),
            TokenType::TOKEN_PLUS => (ParseFn::Null, ParseFn::Binary, Precedence::PREC_TERM),
            TokenType::TOKEN_SLASH => (ParseFn::Null, ParseFn::Binary, Precedence::PREC_FACTOR),
            TokenType::TOKEN_STAR => (ParseFn::Null, ParseFn::Binary, Precedence::PREC_FACTOR),
            TokenType::TOKEN_BANG => (ParseFn::Unary, ParseFn::Null, Precedence::PREC_NONE),
            TokenType::TOKEN_BANG_EQUAL => (
                ParseFn::Null,
                ParseFn::Binary,
                Precedence::PREC_EQUALITY,
            ),
            TokenType::TOKEN_EQUAL_EQUAL => (
                ParseFn::Null,
                ParseFn::Binary,
                Precedence::PREC_EQUALITY,
            ),
            TokenType::TOKEN_GREATER => (
                ParseFn::Null,
                ParseFn::Binary,
                Precedence::PREC_COMPARISON,
            ),
            TokenType::TOKEN_GREATER_EQUAL => (
                ParseFn::Null,
                ParseFn::Binary,
                Precedence::PREC_COMPARISON,
            ),
            TokenType::TOKEN_LESS => (ParseFn::Null, ParseFn::Binary, Precedence::PREC_COMPARISON),
            TokenType::TOKEN_LESS_EQUAL => (
                ParseFn::Null,
                ParseFn::Binary,
                Precedence::PREC_COMPARISON,
            ),
            TokenType::TOKEN_STRING => (ParseFn::String, ParseFn::Null, Precedence::PREC_NONE),
            TokenType::TOKEN_NUMBER => (ParseFn::Number, ParseFn::Null, Precedence::PREC_NONE),
            TokenType::TOKEN_FALSE => (ParseFn::Literal, ParseFn::Null, Precedence::PREC_NONE),
            TokenType::TOKEN_TRUE => (ParseFn::Literal, ParseFn::Null, Precedence::PREC_NONE),
            TokenType::TOKEN_NIL => (ParseFn::Literal, ParseFn::Null, Precedence::PREC_NONE),
            _ => (ParseFn::Null, ParseFn::Null, Precedence::PREC_NONE),
        };
        ParseRule { prefix, infix, precedence }
    }
}

} // verus!
