//! What the machine does, as functions of the code, the constants and
//! the stack.

use vstd::prelude::*;
use crate::instruction::Instruction;
use crate::value::{Datum, Number};

verus! {

/// The operations on two numbers that the host computes.
#[derive(Debug, Clone, Copy, PartialEq, Eq, Structural)]
pub enum Arith {
    Add,
    Subtract,
    Multiply,
    Divide,
}

/// What one instruction does to the operand stack. The top of the stack is
/// the last element.
pub ghost enum Step {
    /// Execution goes on at the next instruction with this stack.
    Next(Seq<Datum>),
    /// Execution ends with this value; the stack that is left.
    Return(Datum, Seq<Datum>),
    /// The host is asked for `lhs op rhs`; the stack without the operands.
    Ask(Arith, Number, Number, Seq<Datum>),
    /// An operand has the wrong type.
    TypeError,
    /// The stack holds too few operands or the constant does not exist: a
    /// fault of whoever made the chunk.
    Fault,
}

/// The operation that an arithmetic instruction asks for.
pub open spec fn arith_of(instruction: Instruction) -> Option<Arith> {
    match instruction {
        Instruction::OpAdd => Some(Arith::Add),
        Instruction::OpSubtract => Some(Arith::Subtract),
        Instruction::OpMultiply => Some(Arith::Multiply),
        Instruction::OpDivide => Some(Arith::Divide),
        _ => None,
    }
}

/// The number of operands that an instruction pops.
pub open spec fn operands(instruction: Instruction) -> int {
    match instruction {
        Instruction::OpConstant(_) | Instruction::OpTrue | Instruction::OpFalse | Instruction::OpNil => 0,
        Instruction::OpReturn | Instruction::OpNegate | Instruction::OpNot => 1,
        _ => 2,
    }
}

/// What `instruction` does when the stack is `stack` and the constant pool
/// is `pool`. For a binary instruction the right operand is on top.
pub open spec fn step(instruction: Instruction, pool: Seq<Datum>, stack: Seq<Datum>) -> Step {
    let depth = stack.len() as int;
    if depth < operands(instruction) {
        Step::Fault
    } else {
        let rest = stack.take(depth - operands(instruction));
        match instruction {
            Instruction::OpReturn => Step::Return(stack[depth - 1], rest),
            Instruction::OpConstant(index) => if index < pool.len() {
                Step::Next(stack.push(pool[index as int]))
            } else {
                Step::Fault
            },
            Instruction::OpTrue => Step::Next(stack.push(Datum::Boolean(true))),
            Instruction::OpFalse => Step::Next(stack.push(Datum::Boolean(false))),
            Instruction::OpNil => Step::Next(stack.push(Datum::Nil)),
            Instruction::OpNegate => match stack[depth - 1] {
                Datum::Number(n) => Step::Next(rest.push(Datum::Number(n.negated()))),
                _ => Step::TypeError,
            },
            Instruction::OpNot => Step::Next(rest.push(Datum::Boolean(!stack[depth - 1].truthy()))),
            Instruction::OpEqual => Step::Next(
                rest.push(Datum::Boolean(stack[depth - 2].equals(stack[depth - 1]))),
            ),
            Instruction::OpGreater => match (stack[depth - 2], stack[depth - 1]) {
                (Datum::Number(a), Datum::Number(b)) => Step::Next(
                    rest.push(Datum::Boolean(b.below(a))),
                ),
                _ => Step::TypeError,
            },
            Instruction::OpLess => match (stack[depth - 2], stack[depth - 1]) {
                (Datum::Number(a), Datum::Number(b)) => Step::Next(
                    rest.push(Datum::Boolean(a.below(b))),
                ),
                _ => Step::TypeError,
            },
            Instruction::OpAdd => match (stack[depth - 2], stack[depth - 1]) {
                (Datum::Number(a), Datum::Number(b)) => Step::Ask(Arith::Add, a, b, rest),
                (Datum::Text(a), Datum::Text(b)) => Step::Next(rest.push(Datum::Text(a + b))),
                _ => Step::TypeError,
            },
            _ => match (stack[depth - 2], stack[depth - 1]) {
                (Datum::Number(a), Datum::Number(b)) => Step::Ask(
                    arith_of(instruction).unwrap(),
                    a,
                    b,
                    rest,
                ),
                _ => Step::TypeError,
            },
        }
    }
}

/// How a run ends.
pub ghost enum Outcome {
    /// `OpReturn` popped `value` and left `stack`.
    Returned { value: Datum, stack: Seq<Datum> },
    /// The machine stopped before the instruction at `ip`, with `stack`,
    /// and waits for the result of `lhs op rhs`.
    Pending { op: Arith, lhs: Number, rhs: Number, ip: int, stack: Seq<Datum> },
    /// A type error, or the instructions ran out before an `OpReturn`.
    RuntimeError,
    /// The chunk is faulty.
    Fault,
}

/// The outcome of running `code` from the instruction at `ip` with the
/// stack `stack`, up to the first point at which the machine stops.
pub open spec fn run(code: Seq<Instruction>, pool: Seq<Datum>, ip: int, stack: Seq<Datum>) -> Outcome
    decreases code.len() - ip,
{
    if 0 <= ip < code.len() {
        match step(code[ip], pool, stack) {
            Step::Next(after) => run(code, pool, ip + 1, after),
            Step::Return(value, after) => Outcome::Returned { value, stack: after },
            Step::Ask(op, lhs, rhs, after) => Outcome::Pending { op, lhs, rhs, ip: ip + 1, stack: after },
            Step::TypeError => Outcome::RuntimeError,
            Step::Fault => Outcome::Fault,
        }
    } else {
        Outcome::RuntimeError
    }
}

/// The outcome of running `code` from `ip` to its end with a host that
/// answers every request at once: a returned value, a runtime error or a
/// fault.
pub open spec fn execute(
    code: Seq<Instruction>,
    pool: Seq<Datum>,
    ip: int,
    stack: Seq<Datum>,
    host: spec_fn(Arith, Number, Number) -> Number,
) -> Outcome
    decreases code.len() - ip,
{
    if 0 <= ip < code.len() {
        match step(code[ip], pool, stack) {
            Step::Next(after) => execute(code, pool, ip + 1, after, host),
            Step::Ask(op, lhs, rhs, after) => execute(
                code,
                pool,
                ip + 1,
                after.push(Datum::Number(host(op, lhs, rhs))),
                host,
            ),
            Step::Return(value, after) => Outcome::Returned { value, stack: after },
            Step::TypeError => Outcome::RuntimeError,
            Step::Fault => Outcome::Fault,
        }
    } else {
        Outcome::RuntimeError
    }
}

/// Running to the end is running to the first stop and, where the machine
/// waits there, going on with the host's answer pushed.
pub proof fn lemma_execute_by_runs(
    code: Seq<Instruction>,
    pool: Seq<Datum>,
    ip: int,
    stack: Seq<Datum>,
    host: spec_fn(Arith, Number, Number) -> Number,
)
    ensures
        execute(code, pool, ip, stack, host) == match run(code, pool, ip, stack) {
            Outcome::Pending { op, lhs, rhs, ip: next, stack: rest } => execute(
                code,
                pool,
                next,
                rest.push(Datum::Number(host(op, lhs, rhs))),
                host,
            ),
            other => other,
        },
    decreases code.len() - ip,
{
    if 0 <= ip < code.len() {
        match step(code[ip], pool, stack) {
            Step::Next(after) => {
                lemma_execute_by_runs(code, pool, ip + 1, after, host);
            },
            _ => {},
        }
    }
}

/// Whether `instruction` rejects the operands on top of `stack` for their
/// types: `OpNegate` anything but a number; `OpAdd` anything but two
/// numbers or two strings; the other arithmetic instructions and the two
/// ordering instructions anything but two numbers.
pub open spec fn rejects(instruction: Instruction, stack: Seq<Datum>) -> bool {
    let depth = stack.len() as int;
    let numbers = stack[depth - 2] is Number && stack[depth - 1] is Number;
    let texts = stack[depth - 2] is Text && stack[depth - 1] is Text;
    match instruction {
        Instruction::OpNegate => !(stack[depth - 1] is Number),
        Instruction::OpAdd => !numbers && !texts,
        Instruction::OpSubtract | Instruction::OpMultiply | Instruction::OpDivide | Instruction::OpGreater | Instruction::OpLess => !numbers,
        _ => false,
    }
}

/// An instruction ends in a type error exactly if it has its operands and
/// rejects them, and the run then ends in a runtime error.
pub proof fn lemma_type_errors(code: Seq<Instruction>, pool: Seq<Datum>, ip: int, stack: Seq<Datum>)
    requires
        0 <= ip < code.len(),
    ensures
        step(code[ip], pool, stack) is TypeError <==> stack.len() >= operands(code[ip])
            && rejects(code[ip], stack),
        step(code[ip], pool, stack) is TypeError ==> run(code, pool, ip, stack)
            == Outcome::RuntimeError,
{
}

/// Dividing never fails: whatever the two numbers are, a zero divisor
/// too, the quotient is asked for.
pub proof fn lemma_division_is_asked(pool: Seq<Datum>, stack: Seq<Datum>, lhs: Number, rhs: Number)
    ensures
        step(
            Instruction::OpDivide,
            pool,
            stack.push(Datum::Number(lhs)).push(Datum::Number(rhs)),
        ) == Step::Ask(Arith::Divide, lhs, rhs, stack),
{
    let full = stack.push(Datum::Number(lhs)).push(Datum::Number(rhs));
    assert(full.take(full.len() - 2) =~= stack);
}

} // verus!
