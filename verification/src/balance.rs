//! What the compiler's output guarantees to the machine: the code of an
//! expression never meets a faulty instruction, and its `OpReturn` pops
//! the one value that is left.

use vstd::prelude::*;
use crate::audit::{check, kind_of, kinds_of, lemma_tidy_is_not_faulty, tidy_from, Check, Kind};
use crate::chunk::Chunk;
use crate::compiler::compiled;
use crate::expr::{
    binary_code, code_of, constants_of, lemma_constants_count, literals, well_formed, Expr,
};
use crate::grammar::lemma_parse;
use crate::instruction::Instruction;
use crate::parser::parse;
use crate::token::TokenType;
use crate::value::Number;
use crate::vm::{InterpretError, Vm};

verus! {

/// The type of the value of an expression whose numbers are numbers, or
/// `None` if evaluating it ends in a type error.
pub open spec fn static_kind(expr: Expr) -> Option<Kind>
    decreases expr,
{
    match expr {
        Expr::Number { ordinal, line } => Some(Kind::Number),
        Expr::Literal { keyword, line } => if keyword == TokenType::False || keyword
            == TokenType::True {
            Some(Kind::Boolean)
        } else {
            Some(Kind::Nil)
        },
        Expr::Unary { operator, operand, line } => match static_kind(*operand) {
            Some(kind) => if operator == TokenType::Minus {
                if kind == Kind::Number {
                    Some(Kind::Number)
                } else {
                    None
                }
            } else {
                Some(Kind::Boolean)
            },
            None => None,
        },
        Expr::Binary { operator, left, right, line } => match (
            static_kind(*left),
            static_kind(*right),
        ) {
            (Some(a), Some(b)) => binary_kind(operator, a, b),
            _ => None,
        },
        Expr::Group { inner } => static_kind(*inner),
    }
}

/// The type of `a operator b`, or `None` if the operator rejects the
/// operands.
pub open spec fn binary_kind(operator: TokenType, a: Kind, b: Kind) -> Option<Kind> {
    let numbers = a == Kind::Number && b == Kind::Number;
    match operator {
        TokenType::EqualEqual | TokenType::BangEqual => Some(Kind::Boolean),
        TokenType::Greater | TokenType::GreaterEqual | TokenType::Less | TokenType::LessEqual => if numbers {
            Some(Kind::Boolean)
        } else {
            None
        },
        TokenType::Plus => if numbers {
            Some(Kind::Number)
        } else if a == Kind::Text && b == Kind::Text {
            Some(Kind::Text)
        } else {
            None
        },
        _ => if numbers {
            Some(Kind::Number)
        } else {
            None
        },
    }
}

/// Whether `code` holds `part` from the index `at` on.
pub open spec fn holds_at(code: Seq<Instruction>, at: int, part: Seq<Instruction>) -> bool {
    &&& 0 <= at
    &&& at + part.len() <= code.len()
    &&& forall|i: int| 0 <= i < part.len() ==> code[at + i] == #[trigger] part[i]
}

/// Whether running `code` from `at`, where the code of `expr` stands, is
/// tidy exactly if the run is tidy from behind that code with the type of
/// the expression's value pushed; or simply tidy, where the expression has
/// a type error and the run stops inside it.
pub open spec fn passes_through(
    expr: Expr,
    base: int,
    code: Seq<Instruction>,
    pool: Seq<Kind>,
    at: int,
    stack: Seq<Kind>,
) -> bool {
    tidy_from(code, pool, at, stack) == match static_kind(expr) {
        Some(kind) => tidy_from(code, pool, at + code_of(expr, base).len(), stack.push(kind)),
        None => true,
    }
}

/// Running the code of an expression is tidy exactly if what follows it is
/// tidy with the expression's value pushed; if the expression has a type
/// error the run stops inside it, which is tidy.
pub proof fn lemma_expression_is_tidy(
    expr: Expr,
    base: int,
    code: Seq<Instruction>,
    pool: Seq<Kind>,
    at: int,
    stack: Seq<Kind>,
)
    requires
        well_formed(expr),
        holds_at(code, at, code_of(expr, base)),
        0 <= base,
        base + literals(expr) <= pool.len(),
        pool.len() <= usize::MAX,
        forall|i: int| base <= i < base + literals(expr) ==> pool[i] == Kind::Number,
    ensures
        passes_through(expr, base, code, pool, at, stack),
    decreases expr,
{
    let part = code_of(expr, base);
    match expr {
        Expr::Number { ordinal, line } => {
            assert(code[at] == part[0]);
            assert(pool[base] == Kind::Number);
            assert(base as usize == base);
        },
        Expr::Literal { keyword, line } => {
            assert(code[at] == part[0]);
        },
        Expr::Unary { operator, operand, line } => {
            let inner = code_of(*operand, base);
            assert forall|i: int| 0 <= i < inner.len() implies code[at + i] == #[trigger] inner[i] by {
                assert(part[i] == inner[i]);
            }
            lemma_expression_is_tidy(*operand, base, code, pool, at, stack);
            assert(code[at + inner.len()] == part[inner.len() as int]);
            match static_kind(*operand) {
                Some(kind) => {
                    let after = stack.push(kind);
                    assert(after.take(after.len() - 1) =~= stack);
                    if operator == TokenType::Minus && kind == Kind::Number {
                        assert(check(code[at + inner.len()], pool, after) == Check::Next(after));
                    }
                },
                None => {},
            }
        },
        Expr::Binary { operator, left, right, line } => {
            let first = code_of(*left, base);
            let second = code_of(*right, base + literals(*left));
            let last = binary_code(operator);
            assert forall|i: int| 0 <= i < first.len() implies code[at + i] == #[trigger] first[i] by {
                assert(part[i] == first[i]);
            }
            assert forall|i: int| 0 <= i < second.len() implies code[at + first.len() + i]
                == #[trigger] second[i] by {
                assert(part[first.len() + i] == second[i]);
            }
            lemma_expression_is_tidy(*left, base, code, pool, at, stack);
            match static_kind(*left) {
                Some(a) => {
                    lemma_expression_is_tidy(
                        *right,
                        base + literals(*left),
                        code,
                        pool,
                        at + first.len(),
                        stack.push(a),
                    );
                    match static_kind(*right) {
                        Some(b) => {
                            let both = (first.len() + second.len()) as int;
                            let here = at + both;
                            let full = stack.push(a).push(b);
                            assert(full.take(full.len() - 2) =~= stack);
                            assert(full.take(full.len() - 1) =~= stack.push(a));
                            assert(code[here] == part[both]);
                            assert(part[both] == last[0]);
                            assert(full[full.len() - 1] == b);
                            assert(full[full.len() - 2] == a);
                            if last.len() == 2 {
                                assert(code[here + 1] == part[both + 1]);
                                assert(part[both + 1] == last[1]);
                                let mid = stack.push(Kind::Boolean);
                                assert(mid.take(mid.len() - 1) =~= stack);
                                if binary_kind(operator, a, b) is Some {
                                    assert(check(code[here], pool, full) == Check::Next(mid));
                                    assert(check(code[here + 1], pool, mid) == Check::Next(mid));
                                    assert(tidy_from(code, pool, here + 1, mid) == tidy_from(
                                        code,
                                        pool,
                                        here + 2,
                                        mid,
                                    ));
                                } else {
                                    assert(check(code[here], pool, full) == Check::Stop);
                                }
                            }
                            assert(tidy_from(code, pool, here, full) == match binary_kind(
                                operator,
                                a,
                                b,
                            ) {
                                Some(kind) => tidy_from(
                                    code,
                                    pool,
                                    here + last.len(),
                                    stack.push(kind),
                                ),
                                None => true,
                            });
                        },
                        None => {},
                    }
                },
                None => {},
            }
        },
        Expr::Group { inner } => {
            lemma_expression_is_tidy(*inner, base, code, pool, at, stack);
        },
    }
}

/// Every constant of an expression is a number.
pub proof fn lemma_constants_are_numbers(expr: Expr, numbers: Seq<Number>)
    ensures
        forall|i: int|
            0 <= i < constants_of(expr, numbers).len() ==> kind_of(
                #[trigger] constants_of(expr, numbers)[i],
            ) == Kind::Number,
    decreases expr,
{
    match expr {
        Expr::Unary { operator, operand, line } => {
            lemma_constants_are_numbers(*operand, numbers);
        },
        Expr::Binary { operator, left, right, line } => {
            lemma_constants_are_numbers(*left, numbers);
            lemma_constants_are_numbers(*right, numbers);
        },
        Expr::Group { inner } => {
            lemma_constants_are_numbers(*inner, numbers);
        },
        _ => {},
    }
}

/// Whether running `chunk` from its start is tidy.
pub open spec fn tidy(chunk: Chunk) -> bool {
    tidy_from(chunk.code(), kinds_of(chunk.pool()), 0, Seq::empty())
}

/// The code of an expression followed by `OpReturn` is tidy: executing it
/// meets no faulty instruction, and the stack is empty once `OpReturn`
/// has popped the value.
pub proof fn lemma_expression_code_is_tidy(expr: Expr, numbers: Seq<Number>)
    requires
        well_formed(expr),
        literals(expr) <= usize::MAX,
    ensures
        tidy_from(
            code_of(expr, 0).push(Instruction::OpReturn),
            kinds_of(constants_of(expr, numbers)),
            0,
            Seq::empty(),
        ),
{
    let body = code_of(expr, 0);
    let code = body.push(Instruction::OpReturn);
    let constants = constants_of(expr, numbers);
    let pool = kinds_of(constants);
    let empty = Seq::<Kind>::empty();
    lemma_constants_count(expr, numbers);
    lemma_constants_are_numbers(expr, numbers);
    assert forall|i: int| 0 <= i < literals(expr) implies pool[i] == Kind::Number by {
        assert(kind_of(constants[i]) == Kind::Number);
    }
    lemma_expression_is_tidy(expr, 0, code, pool, 0, empty);
    match static_kind(expr) {
        Some(kind) => {
            assert(code[body.len() as int] == Instruction::OpReturn);
            assert(check(code[body.len() as int], pool, empty.push(kind)) == Check::Stop);
        },
        None => {},
    }
}

/// A chunk that was empty before a successful compilation is tidy after
/// it, so the machine accepts it, and every run of it that returns leaves
/// the operand stack empty (`lemma_tidy_run`).
pub proof fn lemma_compiled_chunk_is_tidy(
    src: Seq<u8>,
    numbers: Seq<Number>,
    before: Chunk,
    after: Chunk,
    result: Result<(), InterpretError>,
)
    requires
        compiled(src, numbers, before, after, result),
        result is Ok,
        before.code().len() == 0,
        before.pool().len() == 0,
    ensures
        tidy(after),
        Vm::admits(after),
{
    let expr = parse(src)->Ok_0.0;
    after.lemma_counts_fit();
    lemma_parse(src);
    lemma_constants_count(expr, numbers);
    assert(after.pool() =~= constants_of(expr, numbers));
    assert(after.code() =~= code_of(expr, 0).push(Instruction::OpReturn));
    lemma_expression_code_is_tidy(expr, numbers);
    lemma_tidy_is_not_faulty(after.code(), kinds_of(after.pool()), 0, Seq::empty());
}

} // verus!
