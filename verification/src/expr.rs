//! Expressions, and the code that each compiles to.

use vstd::prelude::*;
use crate::instruction::Instruction;
use crate::token::TokenType;
use crate::value::{Datum, Number};

verus! {

/// An expression as the parser reads it. Each node that emits an
/// instruction holds the line that the instruction is recorded with: the
/// line of the last token read when it is emitted.
pub ghost enum Expr {
    /// A number literal: the `ordinal`-th number token of the source,
    /// counted from 0.
    Number { ordinal: int, line: int },
    /// `false`, `true` or `nil`.
    Literal { keyword: TokenType, line: int },
    /// `-` or `!` before an operand.
    Unary { operator: TokenType, operand: Box<Expr>, line: int },
    /// An infix operator between two operands.
    Binary { operator: TokenType, left: Box<Expr>, right: Box<Expr>, line: int },
    /// An expression in parentheses.
    Group { inner: Box<Expr> },
}

pub open spec fn literal_code(keyword: TokenType) -> Instruction {
    match keyword {
        TokenType::False => Instruction::OpFalse,
        TokenType::True => Instruction::OpTrue,
        _ => Instruction::OpNil,
    }
}

pub open spec fn unary_code(operator: TokenType) -> Instruction {
    match operator {
        TokenType::Minus => Instruction::OpNegate,
        _ => Instruction::OpNot,
    }
}

/// The instructions of an infix operator, which follow those of its two
/// operands. An operator without an instruction of its own is the
/// negation of its opposite.
pub open spec fn binary_code(operator: TokenType) -> Seq<Instruction> {
    match operator {
        TokenType::Plus => seq![Instruction::OpAdd],
        TokenType::Minus => seq![Instruction::OpSubtract],
        TokenType::Star => seq![Instruction::OpMultiply],
        TokenType::Slash => seq![Instruction::OpDivide],
        TokenType::BangEqual => seq![Instruction::OpEqual, Instruction::OpNot],
        TokenType::EqualEqual => seq![Instruction::OpEqual],
        TokenType::Greater => seq![Instruction::OpGreater],
        TokenType::GreaterEqual => seq![Instruction::OpLess, Instruction::OpNot],
        TokenType::Less => seq![Instruction::OpLess],
        TokenType::LessEqual => seq![Instruction::OpGreater, Instruction::OpNot],
        _ => seq![],
    }
}

/// The constants of an expression, in the order of its number literals;
/// `numbers` holds the value of each number token of the source.
pub open spec fn constants_of(expr: Expr, numbers: Seq<Number>) -> Seq<Datum>
    decreases expr,
{
    match expr {
        Expr::Number { ordinal, line } => seq![Datum::Number(numbers[ordinal])],
        Expr::Literal { keyword, line } => seq![],
        Expr::Unary { operator, operand, line } => constants_of(*operand, numbers),
        Expr::Binary { operator, left, right, line } => constants_of(*left, numbers)
            + constants_of(*right, numbers),
        Expr::Group { inner } => constants_of(*inner, numbers),
    }
}

/// The number of number literals in an expression.
pub open spec fn literals(expr: Expr) -> nat
    decreases expr,
{
    match expr {
        Expr::Number { ordinal, line } => 1,
        Expr::Literal { keyword, line } => 0,
        Expr::Unary { operator, operand, line } => literals(*operand),
        Expr::Binary { operator, left, right, line } => literals(*left) + literals(*right),
        Expr::Group { inner } => literals(*inner),
    }
}

/// The instructions of an expression whose first constant takes the slot
/// `base` of the pool: operands first, then the operator.
pub open spec fn code_of(expr: Expr, base: int) -> Seq<Instruction>
    decreases expr,
{
    match expr {
        Expr::Number { ordinal, line } => seq![Instruction::OpConstant(base as usize)],
        Expr::Literal { keyword, line } => seq![literal_code(keyword)],
        Expr::Unary { operator, operand, line } => code_of(*operand, base).push(
            unary_code(operator),
        ),
        Expr::Binary { operator, left, right, line } => code_of(*left, base) + code_of(
            *right,
            base + literals(*left),
        ) + binary_code(operator),
        Expr::Group { inner } => code_of(*inner, base),
    }
}

/// The line of each instruction of an expression.
pub open spec fn lines_of(expr: Expr) -> Seq<usize>
    decreases expr,
{
    match expr {
        Expr::Number { ordinal, line } => seq![line as usize],
        Expr::Literal { keyword, line } => seq![line as usize],
        Expr::Unary { operator, operand, line } => lines_of(*operand).push(line as usize),
        Expr::Binary { operator, left, right, line } => lines_of(*left) + lines_of(*right)
            + operator_lines(operator, line),
        Expr::Group { inner } => lines_of(*inner),
    }
}

/// The line `line` once for each instruction of `operator`.
pub open spec fn operator_lines(operator: TokenType, line: int) -> Seq<usize> {
    Seq::new(binary_code(operator).len(), |i: int| line as usize)
}

/// Whether `operator` is one of the ten infix operators.
pub open spec fn is_infix(operator: TokenType) -> bool {
    binary_code(operator).len() > 0
}

/// Whether every operator in `expr` is one that the parser puts there.
pub open spec fn well_formed(expr: Expr) -> bool
    decreases expr,
{
    match expr {
        Expr::Number { ordinal, line } => true,
        Expr::Literal { keyword, line } => true,
        Expr::Unary { operator, operand, line } => well_formed(*operand),
        Expr::Binary { operator, left, right, line } => is_infix(operator) && well_formed(*left)
            && well_formed(*right),
        Expr::Group { inner } => well_formed(*inner),
    }
}

/// An expression has one constant for each of its number literals.
pub proof fn lemma_constants_count(expr: Expr, numbers: Seq<Number>)
    ensures
        constants_of(expr, numbers).len() == literals(expr),
        code_of(expr, 0).len() == lines_of(expr).len(),
    decreases expr,
{
    match expr {
        Expr::Unary { operator, operand, line } => {
            lemma_constants_count(*operand, numbers);
        },
        Expr::Binary { operator, left, right, line } => {
            lemma_constants_count(*left, numbers);
            lemma_constants_count(*right, numbers);
            lemma_code_length(*right, 0, literals(*left) as int);
        },
        Expr::Group { inner } => {
            lemma_constants_count(*inner, numbers);
        },
        _ => {},
    }
}

/// The length of an expression's code does not depend on where its
/// constants go.
pub proof fn lemma_code_length(expr: Expr, base: int, other: int)
    ensures
        code_of(expr, base).len() == code_of(expr, other).len(),
    decreases expr,
{
    match expr {
        Expr::Unary { operator, operand, line } => {
            lemma_code_length(*operand, base, other);
        },
        Expr::Binary { operator, left, right, line } => {
            lemma_code_length(*left, base, other);
            lemma_code_length(*right, base + literals(*left), other + literals(*left));
        },
        Expr::Group { inner } => {
            lemma_code_length(*inner, base, other);
        },
        _ => {},
    }
}

} // verus!
