//! Checking a chunk before it runs: whether the machine, whatever the
//! host answers, can meet an instruction that finds too few operands or
//! no constant.
//!
//! Only the types of the values decide this, so the check runs the code on
//! types.

use vstd::prelude::*;
use crate::chunk::Chunk;
use crate::instruction::Instruction;
use crate::machine::{operands, run, step, Outcome, Step};
use crate::value::{Datum, Number, Value};

verus! {

/// The type of a value, which is all that decides whether an instruction
/// accepts it.
#[derive(Debug, Clone, Copy, PartialEq, Eq, Structural)]
pub enum Kind {
    Boolean,
    Number,
    Nil,
    Text,
}

pub open spec fn kind_of(datum: Datum) -> Kind {
    match datum {
        Datum::Boolean(_) => Kind::Boolean,
        Datum::Number(_) => Kind::Number,
        Datum::Nil => Kind::Nil,
        Datum::Text(_) => Kind::Text,
    }
}

pub open spec fn kinds_of(data: Seq<Datum>) -> Seq<Kind> {
    Seq::new(data.len(), |i: int| kind_of(data[i]))
}

/// What one instruction does to the types on the stack.
pub ghost enum Check {
    /// Execution goes on with a stack of these types; the host has
    /// answered if it was asked.
    Next(Seq<Kind>),
    /// Execution ends, by `OpReturn` or by a type error.
    Stop,
    /// The instruction is faulty here.
    Fault,
}

/// `step` on the types alone, with the host's answer taken to be a number.
pub open spec fn check(instruction: Instruction, pool: Seq<Kind>, stack: Seq<Kind>) -> Check {
    let depth = stack.len() as int;
    if depth < operands(instruction) {
        Check::Fault
    } else {
        let rest = stack.take(depth - operands(instruction));
        match instruction {
            Instruction::OpReturn => Check::Stop,
            Instruction::OpConstant(index) => if index < pool.len() {
                Check::Next(stack.push(pool[index as int]))
            } else {
                Check::Fault
            },
            Instruction::OpTrue | Instruction::OpFalse => Check::Next(stack.push(Kind::Boolean)),
            Instruction::OpNil => Check::Next(stack.push(Kind::Nil)),
            Instruction::OpNegate => if stack[depth - 1] == Kind::Number {
                Check::Next(stack)
            } else {
                Check::Stop
            },
            Instruction::OpNot | Instruction::OpEqual => Check::Next(rest.push(Kind::Boolean)),
            Instruction::OpGreater | Instruction::OpLess => if stack[depth - 2] == Kind::Number
                && stack[depth - 1] == Kind::Number {
                Check::Next(rest.push(Kind::Boolean))
            } else {
                Check::Stop
            },
            Instruction::OpAdd => if stack[depth - 2] == Kind::Number && stack[depth - 1]
                == Kind::Number {
                Check::Next(rest.push(Kind::Number))
            } else if stack[depth - 2] == Kind::Text && stack[depth - 1] == Kind::Text {
                Check::Next(rest.push(Kind::Text))
            } else {
                Check::Stop
            },
            _ => if stack[depth - 2] == Kind::Number && stack[depth - 1] == Kind::Number {
                Check::Next(rest.push(Kind::Number))
            } else {
                Check::Stop
            },
        }
    }
}

/// Whether running `code` from `ip` with a stack of the types `stack`
/// reaches a faulty instruction, whatever numbers the host answers with.
pub open spec fn faulty_from(code: Seq<Instruction>, pool: Seq<Kind>, ip: int, stack: Seq<Kind>) -> bool
    decreases code.len() - ip,
{
    if 0 <= ip < code.len() {
        match check(code[ip], pool, stack) {
            Check::Next(after) => faulty_from(code, pool, ip + 1, after),
            Check::Stop => false,
            Check::Fault => true,
        }
    } else {
        false
    }
}

/// `check` is `step` seen through the types.
pub proof fn lemma_check_abstracts_step(instruction: Instruction, pool: Seq<Datum>, stack: Seq<Datum>)
    ensures
        match step(instruction, pool, stack) {
            Step::Next(after) => check(instruction, kinds_of(pool), kinds_of(stack)) == Check::Next(
                kinds_of(after),
            ),
            Step::Ask(_, _, _, after) => check(instruction, kinds_of(pool), kinds_of(stack))
                == Check::Next(kinds_of(after.push(Datum::Number(Number { bits: 0 })))),
            Step::Return(_, _) => check(instruction, kinds_of(pool), kinds_of(stack))
                == Check::Stop,
            Step::TypeError => check(instruction, kinds_of(pool), kinds_of(stack)) == Check::Stop,
            Step::Fault => check(instruction, kinds_of(pool), kinds_of(stack)) == Check::Fault,
        },
{
    let depth = stack.len() as int;
    let kinds = kinds_of(stack);
    if depth >= operands(instruction) {
        let rest = stack.take(depth - operands(instruction));
        assert(kinds_of(rest) =~= kinds.take(depth - operands(instruction)));
        match step(instruction, pool, stack) {
            Step::Next(after) => {
                match check(instruction, kinds_of(pool), kinds) {
                    Check::Next(k) => {
                        assert(k =~= kinds_of(after));
                    },
                    _ => {},
                }
            },
            Step::Ask(_, _, _, after) => {
                match check(instruction, kinds_of(pool), kinds) {
                    Check::Next(k) => {
                        assert(k =~= kinds_of(after.push(Datum::Number(Number { bits: 0 }))));
                    },
                    _ => {},
                }
            },
            _ => {},
        }
    }
}

/// Whether running `code` from `ip` with a stack of the types `stack`
/// meets no faulty instruction and, if it comes to an `OpReturn`, has
/// exactly the returned value on the stack.
pub open spec fn tidy_from(code: Seq<Instruction>, pool: Seq<Kind>, ip: int, stack: Seq<Kind>) -> bool
    decreases code.len() - ip,
{
    if 0 <= ip < code.len() {
        match check(code[ip], pool, stack) {
            Check::Next(after) => tidy_from(code, pool, ip + 1, after),
            Check::Stop => code[ip] == Instruction::OpReturn ==> stack.len() == 1,
            Check::Fault => false,
        }
    } else {
        true
    }
}

/// Tidy code is code that the machine accepts.
pub proof fn lemma_tidy_is_not_faulty(code: Seq<Instruction>, pool: Seq<Kind>, ip: int, stack: Seq<Kind>)
    requires
        tidy_from(code, pool, ip, stack),
    ensures
        !faulty_from(code, pool, ip, stack),
    decreases code.len() - ip,
{
    if 0 <= ip < code.len() {
        match check(code[ip], pool, stack) {
            Check::Next(after) => {
                lemma_tidy_is_not_faulty(code, pool, ip + 1, after);
            },
            _ => {},
        }
    }
}

/// A run of tidy code that returns leaves the stack empty; one that stops
/// for the host goes on tidily whatever number the host answers with; and
/// no run ends in a fault.
pub proof fn lemma_tidy_run(code: Seq<Instruction>, pool: Seq<Datum>, ip: int, stack: Seq<Datum>)
    requires
        tidy_from(code, kinds_of(pool), ip, kinds_of(stack)),
    ensures
        match run(code, pool, ip, stack) {
            Outcome::Returned { value, stack: rest } => rest.len() == 0,
            Outcome::Pending { op, lhs, rhs, ip: next, stack: rest } => {
                &&& ip < next <= code.len()
                &&& forall|answer: Number|
                    tidy_from(
                        code,
                        kinds_of(pool),
                        next,
                        kinds_of(#[trigger] rest.push(Datum::Number(answer))),
                    )
            },
            Outcome::RuntimeError => true,
            Outcome::Fault => false,
        },
    decreases code.len() - ip,
{
    if 0 <= ip < code.len() {
        lemma_check_abstracts_step(code[ip], pool, stack);
        match step(code[ip], pool, stack) {
            Step::Next(after) => {
                lemma_tidy_run(code, pool, ip + 1, after);
            },
            Step::Ask(op, lhs, rhs, rest) => {
                assert forall|answer: Number|
                    tidy_from(
                        code,
                        kinds_of(pool),
                        ip + 1,
                        kinds_of(#[trigger] rest.push(Datum::Number(answer))),
                    ) by {
                    assert(kinds_of(rest.push(Datum::Number(answer))) =~= kinds_of(
                        rest.push(Datum::Number(Number { bits: 0 })),
                    ));
                }
            },
            Step::Return(value, rest) => {
                assert(kinds_of(stack).len() == stack.len());
            },
            _ => {},
        }
    }
}

impl Value {
    /// The type of the value.
    pub fn kind(&self) -> (kind: Kind)
        ensures
            kind == kind_of(self@),
    {
        match self {
            Value::Boolean(_) => Kind::Boolean,
            Value::Number(_) => Kind::Number,
            Value::Nil => Kind::Nil,
            Value::Obj(_) => Kind::Text,
        }
    }
}

/// What the check of one instruction found.
enum Verdict {
    Next,
    Stop,
    Fault,
}

/// Does to `kinds` what `instruction` does to the types on the stack.
fn check_instruction(instruction: Instruction, chunk: &Chunk, kinds: &mut Vec<Kind>) -> (verdict:
    Verdict)
    ensures
        match check(instruction, kinds_of(chunk.pool()), old(kinds)@) {
            Check::Next(after) => verdict is Next && final(kinds)@ == after,
            Check::Stop => verdict is Stop,
            Check::Fault => verdict is Fault,
        },
{
    let depth = kinds.len();
    let ghost before = kinds@;
    match instruction {
        Instruction::OpReturn => {
            if depth < 1 {
                Verdict::Fault
            } else {
                Verdict::Stop
            }
        },
        Instruction::OpConstant(index) => {
            if index < chunk.constants_count() {
                kinds.push(chunk.constant_at(index).kind());
                Verdict::Next
            } else {
                Verdict::Fault
            }
        },
        Instruction::OpTrue | Instruction::OpFalse => {
            kinds.push(Kind::Boolean);
            Verdict::Next
        },
        Instruction::OpNil => {
            kinds.push(Kind::Nil);
            Verdict::Next
        },
        Instruction::OpNegate => {
            if depth < 1 {
                Verdict::Fault
            } else if kinds[depth - 1] == Kind::Number {
                Verdict::Next
            } else {
                Verdict::Stop
            }
        },
        Instruction::OpNot => {
            if depth < 1 {
                Verdict::Fault
            } else {
                kinds.pop();
                kinds.push(Kind::Boolean);
                assert(kinds@ =~= before.take(depth - 1).push(Kind::Boolean));
                Verdict::Next
            }
        },
        Instruction::OpEqual => {
            if depth < 2 {
                Verdict::Fault
            } else {
                kinds.pop();
                kinds.pop();
                kinds.push(Kind::Boolean);
                assert(kinds@ =~= before.take(depth - 2).push(Kind::Boolean));
                Verdict::Next
            }
        },
        Instruction::OpGreater | Instruction::OpLess => {
            if depth < 2 {
                Verdict::Fault
            } else if kinds[depth - 2] == Kind::Number && kinds[depth - 1] == Kind::Number {
                kinds.pop();
                kinds.pop();
                kinds.push(Kind::Boolean);
                assert(kinds@ =~= before.take(depth - 2).push(Kind::Boolean));
                Verdict::Next
            } else {
                Verdict::Stop
            }
        },
        Instruction::OpAdd => {
            if depth < 2 {
                Verdict::Fault
            } else if kinds[depth - 2] == Kind::Number && kinds[depth - 1] == Kind::Number {
                kinds.pop();
                assert(kinds@ =~= before.take(depth - 2).push(Kind::Number));
                Verdict::Next
            } else if kinds[depth - 2] == Kind::Text && kinds[depth - 1] == Kind::Text {
                kinds.pop();
                assert(kinds@ =~= before.take(depth - 2).push(Kind::Text));
                Verdict::Next
            } else {
                Verdict::Stop
            }
        },
        Instruction::OpSubtract | Instruction::OpMultiply | Instruction::OpDivide => {
            if depth < 2 {
                Verdict::Fault
            } else if kinds[depth - 2] == Kind::Number && kinds[depth - 1] == Kind::Number {
                kinds.pop();
                assert(kinds@ =~= before.take(depth - 2).push(Kind::Number));
                Verdict::Next
            } else {
                Verdict::Stop
            }
        },
    }
}

/// Whether running `chunk` from `ip` with a stack of the types `kinds`
/// meets no faulty instruction.
pub fn audit(chunk: &Chunk, ip: usize, kinds: Vec<Kind>) -> (sound: bool)
    ensures
        sound == !faulty_from(chunk.code(), kinds_of(chunk.pool()), ip as int, kinds@),
{
    let ghost code = chunk.code();
    let ghost pool = kinds_of(chunk.pool());
    let count = chunk.instructions_count();
    let mut stack = kinds;
    let mut at = ip;
    while at < count
        invariant
            code == chunk.code(),
            pool == kinds_of(chunk.pool()),
            count == code.len(),
            faulty_from(code, pool, at as int, stack@) == faulty_from(
                code,
                pool,
                ip as int,
                kinds@,
            ),
        decreases count - at,
    {
        let instruction = match chunk.instruction_at(at) {
            Some(instruction) => *instruction,
            None => {
                return true;
            },
        };
        match check_instruction(instruction, chunk, &mut stack) {
            Verdict::Next => {
                at += 1;
            },
            Verdict::Stop => {
                return true;
            },
            Verdict::Fault => {
                return false;
            },
        }
    }
    true
}

} // verus!
