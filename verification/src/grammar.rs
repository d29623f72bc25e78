//! What the parser's result has to do with the tokens it read: the
//! expression spells exactly those tokens, and it is grouped as the
//! precedence of its operators demands.

use vstd::prelude::*;
use crate::expr::{well_formed, Expr};
use crate::lexeme::{lemma_first_token, lemma_token, tokens, Lexeme};
use crate::parser::{infix, parse, parse_precedence, prefix, remaining, Fault};
use crate::precedence::{binds, infix_precedence, next_higher, Precedence};
use crate::token::TokenType;

verus! {

/// The kinds of the tokens of an expression, in source order.
pub open spec fn spelling(expr: Expr) -> Seq<TokenType>
    decreases expr,
{
    match expr {
        Expr::Number { ordinal, line } => seq![TokenType::Number],
        Expr::Literal { keyword, line } => seq![keyword],
        Expr::Unary { operator, operand, line } => seq![operator] + spelling(*operand),
        Expr::Binary { operator, left, right, line } => spelling(*left) + seq![operator]
            + spelling(*right),
        Expr::Group { inner } => seq![TokenType::LeftParen] + spelling(*inner)
            + seq![TokenType::RightParen],
    }
}

/// How tightly the outermost operator of an expression binds: the level
/// of an infix operator's precedence, and 10, the top of the ladder, for
/// an expression that is no infix operation.
pub open spec fn binding(expr: Expr) -> int {
    match expr {
        Expr::Binary { operator, left, right, line } => infix_precedence(operator).level(),
        _ => 10,
    }
}

/// Whether an expression is grouped by precedence: the left operand of an
/// infix operator binds at least as tightly as the operator and the right
/// operand more tightly, so operators of one precedence group to the
/// left; and the operand of a prefix operator is no infix operation.
pub open spec fn grouped(expr: Expr) -> bool
    decreases expr,
{
    match expr {
        Expr::Number { ordinal, line } => true,
        Expr::Literal { keyword, line } => true,
        Expr::Unary { operator, operand, line } => grouped(*operand) && binding(*operand) == 10,
        Expr::Binary { operator, left, right, line } => {
            &&& grouped(*left)
            &&& grouped(*right)
            &&& binding(*left) >= binding(expr)
            &&& binding(*right) > binding(expr)
        },
        Expr::Group { inner } => grouped(*inner),
    }
}

/// The kinds of the `count` tokens from the index `at` on.
pub open spec fn kinds(tokens: Seq<Lexeme>, at: nat, count: nat) -> Seq<TokenType> {
    Seq::new(count, |i: int| tokens[at + i].kind)
}

/// Whether `expr`, read as `count` tokens from the index `at` on, is what
/// those tokens spell, is built of the parser's operators and grouped by
/// precedence, and is followed by a token.
pub open spec fn reads(tokens: Seq<Lexeme>, at: nat, expr: Expr, count: nat) -> bool {
    &&& spelling(expr) == kinds(tokens, at, count)
    &&& well_formed(expr)
    &&& grouped(expr)
    &&& count >= 1
    &&& at + count < tokens.len()
}

/// The expression that `parse_precedence` finds spells the tokens read,
/// is grouped by precedence and binds at least as tightly as `min`; and
/// the parse ends before a token that does not continue it.
pub proof fn lemma_parse_precedence_reads(
    src: Seq<u8>,
    tokens: Seq<Lexeme>,
    at: nat,
    min: Precedence,
)
    requires
        tokens.len() >= 1,
        tokens.last().kind == TokenType::Eof,
    ensures
        parse_precedence(src, tokens, at, min) matches Ok((expr, count)) ==> {
            &&& reads(tokens, at, expr, count)
            &&& binding(expr) >= min.level()
            &&& !binds(tokens[(at + count) as int].kind, min)
        },
    decreases remaining(tokens, at), 1int,
{
    lemma_prefix_reads(src, tokens, at);
    match prefix(src, tokens, at) {
        Ok((left, count)) => {
            lemma_infix_reads(src, tokens, at, left, count, min);
        },
        Err(_) => {},
    }
}

/// The expression that a prefix rule finds spells the tokens read, is
/// grouped by precedence and is no infix operation.
pub proof fn lemma_prefix_reads(src: Seq<u8>, tokens: Seq<Lexeme>, at: nat)
    requires
        tokens.len() >= 1,
        tokens.last().kind == TokenType::Eof,
    ensures
        prefix(src, tokens, at) matches Ok((expr, count)) ==> {
            &&& reads(tokens, at, expr, count)
            &&& binding(expr) == 10
        },
    decreases remaining(tokens, at), 0int,
{
    if at < tokens.len() {
        let token = tokens[at as int];
        if token.kind == TokenType::Minus || token.kind == TokenType::Bang {
            lemma_parse_precedence_reads(src, tokens, at + 1, Precedence::Unary);
            match parse_precedence(src, tokens, at + 1, Precedence::Unary) {
                Ok((operand, count)) => {
                    let expr = Expr::Unary {
                        operator: token.kind,
                        operand: Box::new(operand),
                        line: tokens[(at + count) as int].line,
                    };
                    assert(spelling(expr) =~= kinds(tokens, at, 1 + count));
                },
                Err(_) => {},
            }
        } else if token.kind == TokenType::LeftParen {
            lemma_parse_precedence_reads(src, tokens, at + 1, Precedence::Assignment);
            match parse_precedence(src, tokens, at + 1, Precedence::Assignment) {
                Ok((inner, count)) => {
                    let close = at + 1 + count;
                    if close < tokens.len() && tokens[close as int].kind
                        == TokenType::RightParen {
                        let expr = Expr::Group { inner: Box::new(inner) };
                        assert(spelling(expr) =~= kinds(tokens, at, count + 2));
                    }
                },
                Err(_) => {},
            }
        } else if token.kind == TokenType::Number || token.kind == TokenType::False
            || token.kind == TokenType::True || token.kind == TokenType::Nil {
            assert(seq![token.kind] =~= kinds(tokens, at, 1));
        }
    }
}

/// Extending `left`, which was read as `count` tokens from `at` on, by
/// infix operators keeps what `lemma_parse_precedence_reads` states.
pub proof fn lemma_infix_reads(
    src: Seq<u8>,
    tokens: Seq<Lexeme>,
    at: nat,
    left: Expr,
    count: nat,
    min: Precedence,
)
    requires
        tokens.len() >= 1,
        tokens.last().kind == TokenType::Eof,
        reads(tokens, at, left, count),
        binding(left) >= min.level(),
        binds(tokens[(at + count) as int].kind, min) ==> infix_precedence(tokens[(at + count) as int].kind).level()
            <= binding(left),
    ensures
        infix(src, tokens, at, left, count, min) matches Ok((expr, total)) ==> {
            &&& reads(tokens, at, expr, total)
            &&& binding(expr) >= min.level()
            &&& !binds(tokens[(at + total) as int].kind, min)
        },
    decreases remaining(tokens, at + count), 0int,
{
    let here = at + count;
    if here < tokens.len() && binds(tokens[here as int].kind, min) {
        let operator = tokens[here as int].kind;
        let above = next_higher(infix_precedence(operator));
        lemma_parse_precedence_reads(src, tokens, here + 1, above);
        match parse_precedence(src, tokens, here + 1, above) {
            Ok((right, more)) => {
                let joined = Expr::Binary {
                    operator,
                    left: Box::new(left),
                    right: Box::new(right),
                    line: tokens[(here + more) as int].line,
                };
                let total = count + 1 + more;
                assert(spelling(joined) =~= kinds(tokens, at, total)) by {
                    assert(spelling(left) =~= kinds(tokens, at, count));
                    assert(spelling(right) =~= kinds(tokens, here + 1, more));
                }
                assert(infix_precedence(operator).level() < 10);
                assert(above.level() == infix_precedence(operator).level() + 1);
                if binds(tokens[(at + total) as int].kind, min) {
                    assert(!binds(tokens[(at + total) as int].kind, above));
                }
                lemma_infix_reads(src, tokens, at, joined, total, min);
            },
            Err(_) => {},
        }
    }
}

/// The expression that the compiler finds at the start of a source spells
/// the first tokens of the source, is built of the parser's operators and
/// is grouped by precedence.
pub proof fn lemma_parse(src: Seq<u8>)
    ensures
        parse(src) matches Ok((expr, _)) ==> {
            &&& well_formed(expr)
            &&& grouped(expr)
            &&& spelling(expr) == kinds(tokens(src), 0, spelling(expr).len())
        },
{
    lemma_first_token(src, 0, 1);
    lemma_token(src, 0, 1, tokens(src).len() - 1);
    lemma_parse_precedence_reads(src, tokens(src), 0, Precedence::Assignment);
}

} // verus!
