//! The parser as a function: which expression the compiler reads from the
//! tokens of a source, or which fault it finds first.
//!
//! The parser climbs precedence: it reads an operand with its prefix rule
//! and then takes every infix operator that binds tightly enough, parsing
//! the right operand of each one step higher up the ladder. It looks one
//! token ahead of the token it acts on.

use vstd::prelude::*;
use vstd::string::StringSliceAdditionalSpecFns;
use crate::expr::Expr;
use crate::lexeme::{lexeme_text, number_texts, tokens, Lexeme};
use crate::precedence::{binds, infix_precedence, next_higher, Precedence};
use crate::token::TokenType;

verus! {

/// What a diagnostic says: the line, the text of the offending token (none
/// for a lexical fault, whose text is the message) and the message.
pub ghost struct Fault {
    pub line: int,
    pub lexeme: Option<Seq<u8>>,
    pub message: Seq<u8>,
}

/// The diagnostic for `message` at `token`.
pub open spec fn fault_at(src: Seq<u8>, token: Lexeme, message: Seq<u8>) -> Fault {
    Fault {
        line: token.line,
        lexeme: if token.kind == TokenType::Error {
            None
        } else {
            Some(lexeme_text(src, token))
        },
        message,
    }
}

/// The fault that the token at `at` is, if it is a lexical fault.
pub open spec fn lexical_fault(src: Seq<u8>, tokens: Seq<Lexeme>, at: nat) -> Option<Fault> {
    if at < tokens.len() && tokens[at as int].kind == TokenType::Error {
        Some(fault_at(src, tokens[at as int], lexeme_text(src, tokens[at as int])))
    } else {
        None
    }
}

/// The number of tokens from the index `at` to the end.
pub open spec fn remaining(tokens: Seq<Lexeme>, at: nat) -> nat {
    if at <= tokens.len() {
        (tokens.len() - at) as nat
    } else {
        0
    }
}

/// Parses an expression that starts with the token at `at` and whose
/// infix operators bind at least as tightly as `min`. The result is the
/// expression and the number of its tokens.
pub open spec fn parse_precedence(src: Seq<u8>, tokens: Seq<Lexeme>, at: nat, min: Precedence) -> Result<
    (Expr, nat),
    Fault,
>
    decreases remaining(tokens, at), 1int,
{
    match prefix(src, tokens, at) {
        Err(fault) => Err(fault),
        Ok((left, count)) => infix(src, tokens, at, left, count, min),
    }
}

/// Parses what the token at `at` starts: an operand with a prefix
/// operator, a group, or a literal. To act on a token the parser first
/// reads the token behind it, so a lexical fault there comes first.
pub open spec fn prefix(src: Seq<u8>, tokens: Seq<Lexeme>, at: nat) -> Result<(Expr, nat), Fault>
    decreases remaining(tokens, at), 0int,
{
    if at >= tokens.len() {
        Err(fault_at(src, tokens.last(), "Expected prefix expression".spec_bytes()))
    } else if lexical_fault(src, tokens, at + 1) is Some {
        Err(lexical_fault(src, tokens, at + 1)->Some_0)
    } else {
        let token = tokens[at as int];
        match token.kind {
            TokenType::Minus | TokenType::Bang => match parse_precedence(
                src,
                tokens,
                at + 1,
                Precedence::Unary,
            ) {
                Err(fault) => Err(fault),
                Ok((operand, count)) => Ok(
                    (
                        Expr::Unary {
                            operator: token.kind,
                            operand: Box::new(operand),
                            line: tokens[(at + count) as int].line,
                        },
                        1 + count,
                    ),
                ),
            },
            TokenType::LeftParen => match parse_precedence(
                src,
                tokens,
                at + 1,
                Precedence::Assignment,
            ) {
                Err(fault) => Err(fault),
                Ok((inner, count)) => {
                    let close = at + 1 + count;
                    if close < tokens.len() && tokens[close as int].kind
                        == TokenType::RightParen {
                        if lexical_fault(src, tokens, close + 1) is Some {
                            Err(lexical_fault(src, tokens, close + 1)->Some_0)
                        } else {
                            Ok((Expr::Group { inner: Box::new(inner) }, count + 2))
                        }
                    } else {
                        Err(
                            fault_at(
                                src,
                                tokens[close as int],
                                "Expect ')' after expression".spec_bytes(),
                            ),
                        )
                    }
                },
            },
            TokenType::Number => Ok(
                (
                    Expr::Number {
                        ordinal: number_texts(src, tokens, at).len() as int,
                        line: token.line,
                    },
                    1,
                ),
            ),
            TokenType::False | TokenType::True | TokenType::Nil => Ok(
                (Expr::Literal { keyword: token.kind, line: token.line }, 1),
            ),
            _ => Err(fault_at(src, token, "Expected prefix expression".spec_bytes())),
        }
    }
}

/// Extends `left`, which starts at `at` and has `count` tokens, by the
/// infix operators that follow it and bind at least as tightly as `min`.
/// The right operand of an operator is parsed one step above the
/// operator's own precedence, so operators of one precedence group to the
/// left.
pub open spec fn infix(
    src: Seq<u8>,
    tokens: Seq<Lexeme>,
    at: nat,
    left: Expr,
    count: nat,
    min: Precedence,
) -> Result<(Expr, nat), Fault>
    decreases remaining(tokens, at + count), 0int,
{
    let here = at + count;
    if here < tokens.len() && binds(tokens[here as int].kind, min) {
        let operator = tokens[here as int].kind;
        if lexical_fault(src, tokens, here + 1) is Some {
            Err(lexical_fault(src, tokens, here + 1)->Some_0)
        } else {
            match parse_precedence(
                src,
                tokens,
                here + 1,
                next_higher(infix_precedence(operator)),
            ) {
                Err(fault) => Err(fault),
                Ok((right, more)) => infix(
                    src,
                    tokens,
                    at,
                    Expr::Binary {
                        operator,
                        left: Box::new(left),
                        right: Box::new(right),
                        line: tokens[(here + more) as int].line,
                    },
                    count + 1 + more,
                    min,
                ),
            }
        }
    } else {
        Ok((left, count))
    }
}

/// The expression that the source starts with, and the line of its last
/// token; or the first fault found.
pub open spec fn parse(src: Seq<u8>) -> Result<(Expr, int), Fault> {
    if lexical_fault(src, tokens(src), 0) is Some {
        Err(lexical_fault(src, tokens(src), 0)->Some_0)
    } else {
        match parse_precedence(src, tokens(src), 0, Precedence::Assignment) {
            Err(fault) => Err(fault),
            Ok((expr, count)) => Ok((expr, tokens(src)[count - 1].line)),
        }
    }
}

/// The expression that a parse found.
pub open spec fn expr_of(parsed: Result<(Expr, nat), Fault>) -> Expr {
    parsed->Ok_0.0
}

/// The number of tokens that a parse read, or its fault.
pub open spec fn count_of(parsed: Result<(Expr, nat), Fault>) -> Result<nat, Fault> {
    match parsed {
        Ok((_, count)) => Ok(count),
        Err(fault) => Err(fault),
    }
}

/// The right operand of the infix operator at `at`.
pub open spec fn operand(src: Seq<u8>, tokens: Seq<Lexeme>, at: nat) -> Result<(Expr, nat), Fault> {
    parse_precedence(
        src,
        tokens,
        at + 1,
        next_higher(infix_precedence(tokens[at as int].kind)),
    )
}

} // verus!
