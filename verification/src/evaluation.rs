//! What an expression means, and that the compiled code computes it.
//!
//! The meaning is given for every host: a function that says which number
//! the host answers each arithmetic request with.

use vstd::prelude::*;
use crate::balance::holds_at;
use crate::chunk::Chunk;
use crate::compiler::compiled;
use crate::expr::{
    binary_code, code_of, constants_of, lemma_constants_count, literals, well_formed, Expr,
};
use crate::grammar::lemma_parse;
use crate::instruction::Instruction;
use crate::machine::{execute, step, Arith, Outcome, Step};
use crate::parser::parse;
use crate::token::TokenType;
use crate::value::{Datum, Number};
use crate::vm::InterpretError;

verus! {

/// The value of `a operator b`, or `None` where the operator rejects the
/// operands. `>=` and `<=` are the negations of `<` and `>`, and `!=` of
/// `==`.
pub open spec fn apply(
    operator: TokenType,
    a: Datum,
    b: Datum,
    host: spec_fn(Arith, Number, Number) -> Number,
) -> Option<Datum> {
    match operator {
        TokenType::EqualEqual => Some(Datum::Boolean(a.equals(b))),
        TokenType::BangEqual => Some(Datum::Boolean(!a.equals(b))),
        TokenType::Plus => match (a, b) {
            (Datum::Number(x), Datum::Number(y)) => Some(Datum::Number(host(Arith::Add, x, y))),
            (Datum::Text(x), Datum::Text(y)) => Some(Datum::Text(x + y)),
            _ => None,
        },
        _ => match (a, b) {
            (Datum::Number(x), Datum::Number(y)) => match operator {
                TokenType::Minus => Some(Datum::Number(host(Arith::Subtract, x, y))),
                TokenType::Star => Some(Datum::Number(host(Arith::Multiply, x, y))),
                TokenType::Slash => Some(Datum::Number(host(Arith::Divide, x, y))),
                TokenType::Greater => Some(Datum::Boolean(y.below(x))),
                TokenType::GreaterEqual => Some(Datum::Boolean(!x.below(y))),
                TokenType::Less => Some(Datum::Boolean(x.below(y))),
                TokenType::LessEqual => Some(Datum::Boolean(!y.below(x))),
                _ => None,
            },
            _ => None,
        },
    }
}

/// The value of an expression, or `None` where evaluating it meets a type
/// error. Operands are evaluated from left to right.
pub open spec fn eval(
    expr: Expr,
    numbers: Seq<Number>,
    host: spec_fn(Arith, Number, Number) -> Number,
) -> Option<Datum>
    decreases expr,
{
    match expr {
        Expr::Number { ordinal, line } => Some(Datum::Number(numbers[ordinal])),
        Expr::Literal { keyword, line } => Some(
            match keyword {
                TokenType::False => Datum::Boolean(false),
                TokenType::True => Datum::Boolean(true),
                _ => Datum::Nil,
            },
        ),
        Expr::Unary { operator, operand, line } => match eval(*operand, numbers, host) {
            Some(value) => if operator == TokenType::Minus {
                match value {
                    Datum::Number(n) => Some(Datum::Number(n.negated())),
                    _ => None,
                }
            } else {
                Some(Datum::Boolean(!value.truthy()))
            },
            None => None,
        },
        Expr::Binary { operator, left, right, line } => match eval(*left, numbers, host) {
            Some(a) => match eval(*right, numbers, host) {
                Some(b) => apply(operator, a, b, host),
                None => None,
            },
            None => None,
        },
        Expr::Group { inner } => eval(*inner, numbers, host),
    }
}

/// Whether `pool` holds `part` from the slot `base` on.
pub open spec fn pool_holds(pool: Seq<Datum>, base: int, part: Seq<Datum>) -> bool {
    &&& 0 <= base
    &&& base + part.len() <= pool.len()
    &&& forall|i: int| 0 <= i < part.len() ==> pool[base + i] == #[trigger] part[i]
}

/// Whether executing `code` from `at`, where the code of `expr` stands,
/// is executing what follows that code with the value of `expr` pushed;
/// or ends in a runtime error, where `expr` has no value.
pub open spec fn computes(
    expr: Expr,
    base: int,
    numbers: Seq<Number>,
    code: Seq<Instruction>,
    pool: Seq<Datum>,
    at: int,
    stack: Seq<Datum>,
    host: spec_fn(Arith, Number, Number) -> Number,
) -> bool {
    execute(code, pool, at, stack, host) == match eval(expr, numbers, host) {
        Some(value) => execute(
            code,
            pool,
            at + code_of(expr, base).len(),
            stack.push(value),
            host,
        ),
        None => Outcome::RuntimeError,
    }
}

/// The code of an expression computes the value of the expression and
/// leaves it on top of the stack as it was.
pub proof fn lemma_code_computes(
    expr: Expr,
    base: int,
    numbers: Seq<Number>,
    code: Seq<Instruction>,
    pool: Seq<Datum>,
    at: int,
    stack: Seq<Datum>,
    host: spec_fn(Arith, Number, Number) -> Number,
)
    requires
        well_formed(expr),
        holds_at(code, at, code_of(expr, base)),
        pool_holds(pool, base, constants_of(expr, numbers)),
        pool.len() <= usize::MAX,
    ensures
        computes(expr, base, numbers, code, pool, at, stack, host),
    decreases expr,
{
    let part = code_of(expr, base);
    lemma_constants_count(expr, numbers);
    match expr {
        Expr::Number { ordinal, line } => {
            assert(code[at] == part[0]);
            assert(pool[base + 0] == constants_of(expr, numbers)[0]);
            assert(base as usize == base);
        },
        Expr::Literal { keyword, line } => {
            assert(code[at] == part[0]);
        },
        Expr::Unary { operator, operand, line } => {
            let inner = code_of(*operand, base);
            assert forall|i: int| 0 <= i < inner.len() implies code[at + i] == #[trigger] inner[i] by {
                assert(part[i] == inner[i]);
            }
            lemma_code_computes(*operand, base, numbers, code, pool, at, stack, host);
            assert(code[at + inner.len()] == part[inner.len() as int]);
            match eval(*operand, numbers, host) {
                Some(value) => {
                    let after = stack.push(value);
                    assert(after.take(after.len() - 1) =~= stack);
                },
                None => {},
            }
        },
        Expr::Binary { operator, left, right, line } => {
            let first = code_of(*left, base);
            let second = code_of(*right, base + literals(*left));
            let last = binary_code(operator);
            let constants = constants_of(expr, numbers);
            let left_constants = constants_of(*left, numbers);
            let right_constants = constants_of(*right, numbers);
            lemma_constants_count(*left, numbers);
            lemma_constants_count(*right, numbers);
            assert forall|i: int| 0 <= i < first.len() implies code[at + i] == #[trigger] first[i] by {
                assert(part[i] == first[i]);
            }
            assert forall|i: int| 0 <= i < second.len() implies code[at + first.len() + i]
                == #[trigger] second[i] by {
                assert(part[first.len() + i] == second[i]);
            }
            assert forall|i: int| 0 <= i < left_constants.len() implies pool[base + i]
                == #[trigger] left_constants[i] by {
                assert(constants[i] == left_constants[i]);
            }
            assert forall|i: int| 0 <= i < right_constants.len() implies pool[base + literals(
                *left,
            ) + i] == #[trigger] right_constants[i] by {
                assert(constants[left_constants.len() + i] == right_constants[i]);
            }
            lemma_code_computes(*left, base, numbers, code, pool, at, stack, host);
            match eval(*left, numbers, host) {
                Some(a) => {
                    lemma_code_computes(
                        *right,
                        base + literals(*left),
                        numbers,
                        code,
                        pool,
                        at + first.len(),
                        stack.push(a),
                        host,
                    );
                    match eval(*right, numbers, host) {
                        Some(b) => {
                            let both = (first.len() + second.len()) as int;
                            let here = at + both;
                            let full = stack.push(a).push(b);
                            assert(full.take(full.len() - 2) =~= stack);
                            assert(code[here] == part[both]);
                            assert(part[both] == last[0]);
                            assert(full[full.len() - 1] == b);
                            assert(full[full.len() - 2] == a);
                            if last.len() == 2 {
                                assert(code[here + 1] == part[both + 1]);
                                assert(part[both + 1] == last[1]);
                                match step(code[here], pool, full) {
                                    Step::Next(mid) => {
                                        assert(mid.take(mid.len() - 1) =~= stack);
                                        assert(execute(code, pool, here, full, host) == execute(
                                            code,
                                            pool,
                                            here + 1,
                                            mid,
                                            host,
                                        ));
                                        assert(execute(code, pool, here + 1, mid, host)
                                            == execute(
                                            code,
                                            pool,
                                            here + 2,
                                            stack.push(apply(operator, a, b, host)->Some_0),
                                            host,
                                        ));
                                    },
                                    _ => {},
                                }
                            }
                            assert(execute(code, pool, here, full, host) == match apply(
                                operator,
                                a,
                                b,
                                host,
                            ) {
                                Some(value) => execute(
                                    code,
                                    pool,
                                    here + last.len(),
                                    stack.push(value),
                                    host,
                                ),
                                None => Outcome::RuntimeError,
                            });
                        },
                        None => {},
                    }
                },
                None => {},
            }
        },
        Expr::Group { inner } => {
            lemma_code_computes(*inner, base, numbers, code, pool, at, stack, host);
        },
    }
}

/// Compiler correctness: executing the code of an expression, ended by
/// `OpReturn`, on an empty stack returns the value of the expression and
/// leaves the stack empty, or ends in a runtime error where the
/// expression has no value. It never meets a faulty instruction.
pub proof fn lemma_compiled_code_evaluates(
    expr: Expr,
    numbers: Seq<Number>,
    host: spec_fn(Arith, Number, Number) -> Number,
)
    requires
        well_formed(expr),
        literals(expr) <= usize::MAX,
    ensures
        execute(
            code_of(expr, 0).push(Instruction::OpReturn),
            constants_of(expr, numbers),
            0,
            Seq::empty(),
            host,
        ) == match eval(expr, numbers, host) {
            Some(value) => Outcome::Returned { value, stack: Seq::empty() },
            None => Outcome::RuntimeError,
        },
{
    let body = code_of(expr, 0);
    let code = body.push(Instruction::OpReturn);
    let pool = constants_of(expr, numbers);
    let empty = Seq::<Datum>::empty();
    lemma_constants_count(expr, numbers);
    lemma_code_computes(expr, 0, numbers, code, pool, 0, empty, host);
    match eval(expr, numbers, host) {
        Some(value) => {
            assert(code[body.len() as int] == Instruction::OpReturn);
            let full = empty.push(value);
            assert(full.take(full.len() - 1) =~= empty);
        },
        None => {},
    }
}

/// From source to value: a chunk that was empty before a successful
/// compilation returns, when it is executed, the value of the expression
/// that the source starts with and leaves the stack empty, or ends in a
/// runtime error where that expression has no value.
pub proof fn lemma_compiled_chunk_evaluates(
    src: Seq<u8>,
    numbers: Seq<Number>,
    before: Chunk,
    after: Chunk,
    result: Result<(), InterpretError>,
    host: spec_fn(Arith, Number, Number) -> Number,
)
    requires
        compiled(src, numbers, before, after, result),
        result is Ok,
        before.code().len() == 0,
        before.pool().len() == 0,
    ensures
        execute(after.code(), after.pool(), 0, Seq::empty(), host) == match eval(
            parse(src)->Ok_0.0,
            numbers,
            host,
        ) {
            Some(value) => Outcome::Returned { value, stack: Seq::empty() },
            None => Outcome::RuntimeError,
        },
{
    let expr = parse(src)->Ok_0.0;
    after.lemma_counts_fit();
    lemma_parse(src);
    lemma_constants_count(expr, numbers);
    assert(after.pool() =~= constants_of(expr, numbers));
    assert(after.code() =~= code_of(expr, 0).push(Instruction::OpReturn));
    lemma_compiled_code_evaluates(expr, numbers, host);
}

} // verus!
